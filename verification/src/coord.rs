//! A pair of signed integers with componentwise arithmetic.
//!
//! Division and remainder truncate toward zero, as the host integer
//! operators do; the contracts state this through the spec functions
//! [`trunc_div`] and [`trunc_rem`].

use vstd::prelude::*;
use vstd::arithmetic::div_mod::{lemma_div_by_multiple, lemma_fundamental_div_mod};

verus! {

/// An ordered pair of signed integers addressing a chunk or cell.
#[derive(Clone, Copy, PartialEq, Eq, Structural, Hash, Debug)]
pub struct Coord {
    pub x: isize,
    pub y: isize,
}

/// Integer division truncating toward zero, as the host `/` operator
/// behaves on signed operands.
pub open spec fn trunc_div(a: int, b: int) -> int
    recommends
        b != 0,
{
    if a == 0 {
        0
    } else if a > 0 && b > 0 {
        a / b
    } else if a < 0 && b < 0 {
        (a * -1) / (b * -1)
    } else if a < 0 {
        ((a * -1) / b) * -1
    } else {
        (a / (b * -1)) * -1
    }
}

/// Integer remainder with the sign of the dividend, as the host `%`
/// operator behaves on signed operands.
pub open spec fn trunc_rem(a: int, b: int) -> int
    recommends
        b != 0,
{
    if a == 0 {
        0
    } else if a > 0 && b > 0 {
        a % b
    } else if a < 0 && b < 0 {
        ((a * -1) % (b * -1)) * -1
    } else if a < 0 {
        ((a * -1) % b) * -1
    } else {
        a % (b * -1)
    }
}

impl Coord {
    pub fn new(x: isize, y: isize) -> (r: Self)
        ensures
            r.x == x,
            r.y == y,
    {
        Self { x, y }
    }

    pub fn x(&self) -> (r: isize)
        ensures
            r == self.x,
    {
        self.x
    }

    pub fn y(&self) -> (r: isize)
        ensures
            r == self.y,
    {
        self.y
    }

    /// Componentwise addition.
    pub fn add(self, rhs: Coord) -> (r: Coord)
        requires
            isize::MIN <= self.x + rhs.x <= isize::MAX,
            isize::MIN <= self.y + rhs.y <= isize::MAX,
        ensures
            r.x == self.x + rhs.x,
            r.y == self.y + rhs.y,
    {
        Coord { x: self.x + rhs.x, y: self.y + rhs.y }
    }

    /// Componentwise multiplication.
    pub fn multiply(self, rhs: Coord) -> (r: Coord)
        requires
            isize::MIN <= self.x * rhs.x <= isize::MAX,
            isize::MIN <= self.y * rhs.y <= isize::MAX,
        ensures
            r.x == self.x * rhs.x,
            r.y == self.y * rhs.y,
    {
        Coord { x: self.x * rhs.x, y: self.y * rhs.y }
    }

    /// Componentwise integer division, truncating toward zero.
    /// Division by a zero component is a caller fault and is excluded,
    /// as is the one overflowing pair of operands.
    pub fn divide(self, rhs: Coord) -> (r: Coord)
        requires
            rhs.x != 0,
            rhs.y != 0,
            !(self.x == isize::MIN && rhs.x == -1),
            !(self.y == isize::MIN && rhs.y == -1),
        ensures
            r.x == trunc_div(self.x as int, rhs.x as int),
            r.y == trunc_div(self.y as int, rhs.y as int),
    {
        Coord { x: div_component(self.x, rhs.x), y: div_component(self.y, rhs.y) }
    }

    /// Division of both components by one scalar, truncating toward zero.
    pub fn divide_scalar(self, rhs: isize) -> (r: Coord)
        requires
            rhs != 0,
            !(self.x == isize::MIN && rhs == -1),
            !(self.y == isize::MIN && rhs == -1),
        ensures
            r.x == trunc_div(self.x as int, rhs as int),
            r.y == trunc_div(self.y as int, rhs as int),
    {
        Coord { x: div_component(self.x, rhs), y: div_component(self.y, rhs) }
    }

    /// The coordinate rendered as "(x, y)".
    pub fn to_text(&self) -> (r: String)
        ensures
            r@ == coord_text(self.x as int, self.y as int),
    {
        format_pair(self.x, self.y)
    }

    /// Componentwise remainder, with the sign of the dividend.
    pub fn modulo(self, rhs: Coord) -> (r: Coord)
        requires
            rhs.x != 0,
            rhs.y != 0,
            !(self.x == isize::MIN && rhs.x == -1),
            !(self.y == isize::MIN && rhs.y == -1),
        ensures
            r.x == trunc_rem(self.x as int, rhs.x as int),
            r.y == trunc_rem(self.y as int, rhs.y as int),
    {
        Coord { x: rem_component(self.x, rhs.x), y: rem_component(self.y, rhs.y) }
    }
}

/// The text "(x, y)" for a pair of signed integers; what it holds is
/// determined by the two values alone.
pub uninterp spec fn coord_text(x: int, y: int) -> Seq<char>;

/// Relies on `format!` with std's `Display` for `isize`: the rendering
/// depends on the two values alone.
#[verifier::external_body]
fn format_pair(x: isize, y: isize) -> (r: String)
    ensures
        r@ == coord_text(x as int, y as int),
{
    format!("({}, {})", x, y)
}

/// The result of a truncating division of one `isize` by another fits in
/// `isize`, outside the one overflowing pair.
proof fn lemma_trunc_div_in_range(a: int, b: int)
    requires
        isize::MIN <= a <= isize::MAX,
        isize::MIN <= b <= isize::MAX,
        b != 0,
        !(a == isize::MIN && b == -1),
    ensures
        isize::MIN <= trunc_div(a, b) <= isize::MAX,
{
    if a == 0 {
    } else if a > 0 && b > 0 {
        assert(0 <= a / b <= a) by (nonlinear_arith)
            requires 0 < a && 0 < b;
    } else if a < 0 && b < 0 {
        let p = a * -1;
        let q = b * -1;
        assert(0 <= p / q <= p) by (nonlinear_arith)
            requires 0 < p && 0 < q;
        if b == -1 {
            assert(p / 1 == p) by (nonlinear_arith);
            assert(a > isize::MIN);
        } else {
            assert(p / q <= p / 2 <= isize::MAX) by (nonlinear_arith)
                requires 0 < p <= isize::MAX + 1 && 2 <= q;
        }
    } else if a < 0 {
        let p = a * -1;
        assert(0 <= p / b <= p) by (nonlinear_arith)
            requires 0 < p && 0 < b;
    } else {
        let q = b * -1;
        assert(0 <= a / q <= a) by (nonlinear_arith)
            requires 0 < a && 0 < q;
    }
}

/// The remainder of a truncating division of one `isize` by another fits
/// in `isize`, outside the one overflowing pair.
proof fn lemma_trunc_rem_in_range(a: int, b: int)
    requires
        isize::MIN <= a <= isize::MAX,
        isize::MIN <= b <= isize::MAX,
        b != 0,
        !(a == isize::MIN && b == -1),
    ensures
        isize::MIN <= trunc_rem(a, b) <= isize::MAX,
{
    if a == 0 {
    } else if a > 0 && b > 0 {
        assert(0 <= a % b < b) by (nonlinear_arith)
            requires 0 < a && 0 < b;
    } else if a < 0 && b < 0 {
        let p = a * -1;
        let q = b * -1;
        assert(0 <= p % q < q) by (nonlinear_arith)
            requires 0 < p && 0 < q;
    } else if a < 0 {
        let p = a * -1;
        assert(0 <= p % b < b) by (nonlinear_arith)
            requires 0 < p && 0 < b;
    } else {
        let q = b * -1;
        assert(0 <= a % q < q) by (nonlinear_arith)
            requires 0 < a && 0 < q;
    }
}

/// Dividing an exact product by its factor loses nothing: for b != 0,
/// truncating division gives (a * b) / b == a.
proof fn lemma_trunc_mul_div_cancel(a: int, b: int)
    requires
        b != 0,
    ensures
        trunc_div(a * b, b) == a,
{
    let p = a * b;
    if a == 0 {
        assert(p == 0) by (nonlinear_arith)
            requires a == 0 && p == a * b;
    } else if a > 0 && b > 0 {
        assert(p > 0) by (nonlinear_arith)
            requires a > 0 && b > 0 && p == a * b;
        lemma_div_by_multiple(a, b);
    } else if a > 0 && b < 0 {
        assert(p < 0 && p * -1 == a * (b * -1)) by (nonlinear_arith)
            requires a > 0 && b < 0 && p == a * b;
        lemma_div_by_multiple(a, b * -1);
    } else if a < 0 && b > 0 {
        assert(p < 0 && p * -1 == (a * -1) * b) by (nonlinear_arith)
            requires a < 0 && b > 0 && p == a * b;
        lemma_div_by_multiple(a * -1, b);
    } else {
        assert(p > 0 && p == (a * -1) * (b * -1)) by (nonlinear_arith)
            requires a < 0 && b < 0 && p == a * b;
        lemma_div_by_multiple(a * -1, b * -1);
    }
}

/// Truncating division and remainder reassemble the dividend:
/// for b != 0, trunc_div(a, b) * b + trunc_rem(a, b) == a.
proof fn lemma_trunc_div_rem(a: int, b: int)
    requires
        b != 0,
    ensures
        trunc_div(a, b) * b + trunc_rem(a, b) == a,
{
    if a == 0 {
        assert(0 * b == 0) by (nonlinear_arith);
        assert(trunc_div(a, b) * b + trunc_rem(a, b) == a);
    } else if a > 0 && b > 0 {
        lemma_fundamental_div_mod(a, b);
        assert((a / b) * b == b * (a / b)) by (nonlinear_arith);
        assert(trunc_div(a, b) * b + trunc_rem(a, b) == a);
    } else if a < 0 && b > 0 {
        let p = a * -1;
        lemma_fundamental_div_mod(p, b);
        assert(((p / b) * -1) * b == (b * (p / b)) * -1) by (nonlinear_arith);
        assert(trunc_div(a, b) * b + trunc_rem(a, b) == a);
    } else if a > 0 && b < 0 {
        let q = b * -1;
        lemma_fundamental_div_mod(a, q);
        assert(((a / q) * -1) * b == q * (a / q)) by (nonlinear_arith)
            requires q == b * -1;
        assert(trunc_div(a, b) * b + trunc_rem(a, b) == a);
    } else {
        let p = a * -1;
        let q = b * -1;
        lemma_fundamental_div_mod(p, q);
        assert((p / q) * b == (q * (p / q)) * -1) by (nonlinear_arith)
            requires q == b * -1;
        assert(trunc_div(a, b) * b + trunc_rem(a, b) == a);
    }
}

/// Addition of coordinates is commutative: both components of a + b and
/// of b + a agree.
pub proof fn lemma_add_commutative(a: Coord, b: Coord)
    ensures
        a.x + b.x == b.x + a.x,
        a.y + b.y == b.y + a.y,
{
}

/// Addition of coordinates is associative: summing the components of
/// (a + b) + c and of a + (b + c) agrees.
pub proof fn lemma_add_associative(a: Coord, b: Coord, c: Coord)
    ensures
        (a.x + b.x) + c.x == a.x + (b.x + c.x),
        (a.y + b.y) + c.y == a.y + (b.y + c.y),
{
}

/// Dividing the componentwise product of a and b by b restores a, for
/// b with both components nonzero: the product is an exact multiple, so
/// truncation loses nothing.
pub proof fn lemma_divide_multiply_cancel(a: Coord, b: Coord)
    requires
        b.x != 0,
        b.y != 0,
    ensures
        trunc_div(a.x * b.x, b.x as int) == a.x,
        trunc_div(a.y * b.y, b.y as int) == a.y,
{
    lemma_trunc_mul_div_cancel(a.x as int, b.x as int);
    lemma_trunc_mul_div_cancel(a.y as int, b.y as int);
}

/// The division/remainder identity, componentwise: for b with both
/// components nonzero, a == divide(a, b) * b + modulo(a, b).
pub proof fn lemma_divide_modulo_identity(a: Coord, b: Coord)
    requires
        b.x != 0,
        b.y != 0,
    ensures
        trunc_div(a.x as int, b.x as int) * b.x + trunc_rem(a.x as int, b.x as int) == a.x,
        trunc_div(a.y as int, b.y as int) * b.y + trunc_rem(a.y as int, b.y as int) == a.y,
{
    lemma_trunc_div_rem(a.x as int, b.x as int);
    lemma_trunc_div_rem(a.y as int, b.y as int);
}

/// One component of a truncating division.
fn div_component(a: isize, b: isize) -> (r: isize)
    requires
        b != 0,
        !(a == isize::MIN && b == -1),
    ensures
        r == trunc_div(a as int, b as int),
{
    proof {
        lemma_trunc_div_in_range(a as int, b as int);
    }
    match a.checked_div(b) {
        Some(q) => q,
        None => {
            proof {
                assert(false);
            }
            0
        },
    }
}

/// One component of a truncating remainder.
fn rem_component(a: isize, b: isize) -> (r: isize)
    requires
        b != 0,
        !(a == isize::MIN && b == -1),
    ensures
        r == trunc_rem(a as int, b as int),
{
    proof {
        lemma_trunc_rem_in_range(a as int, b as int);
    }
    match a.checked_rem(b) {
        Some(m) => m,
        None => {
            proof {
                assert(false);
            }
            0
        },
    }
}

} // verus!
