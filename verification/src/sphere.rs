//! Warping the cube onto the unit sphere, in exact arithmetic.
//!
//! A point `(x, y, z)` on the surface of the cube that reaches from -1 to 1
//! is moved to the point
//! `(x·√(1 − y²/2 − z²/2 + y²z²/3), y·√(1 − x²/2 − z²/2 + x²z²/3), z·√(1 − x²/2 − y²/2 + x²y²/3))`.
//! The roots are not fractions, but the squares of the three coordinates
//! are. This module computes those squares, and shows that they add up to
//! one: the point lies on the unit sphere.

use vstd::prelude::*;
use vstd::arithmetic::mul::{
    lemma_mul_inequality,
    lemma_mul_is_associative,
    lemma_mul_is_commutative,
    lemma_mul_nonnegative,
    lemma_mul_strictly_positive,
    lemma_mul_upper_bound,
};
use crate::side::Side;
use crate::topology::{cube_point, position_on_cube};

verus! {

/// The widest face for which the squares fit into 128 bits.
pub const MAX_SPHERE_WIDTH: usize = 1048576;

/// The common denominator of the squares: `6 * width^6`.
pub open spec fn sphere_scale(width: int) -> int {
    let w = width * width;
    6 * (w * (w * w))
}

/// What the warp leaves of a coordinate's length: for the coordinate beside
/// `b` and `c`, on the cube that reaches from `-width` to `width`, the
/// factor `1 − b²/2 − c²/2 + b²c²/3` as a multiple of `1 / (6 * width^4)`.
pub open spec fn curvature(b: int, c: int, width: int) -> int {
    let w = width * width;
    let s = b * b;
    let t = c * c;
    6 * (w * w) - 3 * (w * s) - 3 * (w * t) + 2 * (s * t)
}

/// The square of the warped coordinate `a`, beside `b` and `c`, as a multiple
/// of `1 / sphere_scale(width)`.
pub open spec fn warped_square(a: int, b: int, c: int, width: int) -> int {
    (a * a) * curvature(b, c, width)
}

/// `square` with the sign of `a`.
pub open spec fn with_sign_of(a: int, square: int) -> int {
    if a < 0 {
        -square
    } else {
        square
    }
}

/// A point of the unit sphere, given by the squares of its coordinates.
///
/// Each field holds the square of a coordinate as a multiple of
/// `1 / scale`, and carries the sign of the coordinate: the coordinate
/// itself is the root of `|x| / scale` with the sign of `x`.
#[derive(Debug, Clone, Copy, PartialEq, Eq, Structural)]
pub struct SpherePoint {
    pub x: i128,
    pub y: i128,
    pub z: i128,
    pub scale: i128,
}

/// The absolute value.
pub open spec fn magnitude(a: int) -> int {
    if a < 0 {
        -a
    } else {
        a
    }
}

impl SpherePoint {
    /// The squares of the coordinates add up to one.
    pub open spec fn on_unit_sphere(self) -> bool {
        self.scale > 0 && magnitude(self.x as int) + magnitude(self.y as int) + magnitude(
            self.z as int,
        ) == self.scale
    }

    /// The point that the warp makes of the point `v` of the cube that
    /// reaches from `-width` to `width`.
    pub open spec fn warps(self, v: (int, int, int), width: int) -> bool {
        &&& self.scale == sphere_scale(width)
        &&& self.x == with_sign_of(v.0, warped_square(v.0, v.1, v.2, width))
        &&& self.y == with_sign_of(v.1, warped_square(v.1, v.0, v.2, width))
        &&& self.z == with_sign_of(v.2, warped_square(v.2, v.0, v.1, width))
    }
}

/// The square of a coordinate is at most the square of the width.
pub proof fn lemma_square_bounds(a: int, width: int)
    requires
        -width <= a <= width,
    ensures
        0 <= a * a <= width * width,
{
    assert(0 <= a * a <= width * width) by (nonlinear_arith)
        requires
            -width <= a <= width,
    ;
}

/// The warp never lengthens a coordinate, and never turns it round: the
/// factor lies between nought and one.
pub proof fn lemma_curvature_bounds(b: int, c: int, width: int)
    requires
        -width <= b <= width,
        -width <= c <= width,
    ensures
        0 <= curvature(b, c, width) <= 6 * ((width * width) * (width * width)),
{
    let w = width * width;
    let s = b * b;
    let t = c * c;
    lemma_square_bounds(b, width);
    lemma_square_bounds(c, width);
    lemma_mul_inequality(s, w, w);
    lemma_mul_is_commutative(s, w);
    lemma_mul_inequality(t, w, w);
    lemma_mul_is_commutative(t, w);
    lemma_mul_inequality(t, w, s);
    lemma_mul_is_commutative(t, s);
    lemma_mul_is_commutative(w, s);
    lemma_mul_nonnegative(s, t);
    lemma_mul_nonnegative(w, s);
    lemma_mul_nonnegative(w, t);
}

/// The square of a warped coordinate is at most one.
pub proof fn lemma_warped_square_bounds(a: int, b: int, c: int, width: int)
    requires
        -width <= a <= width,
        -width <= b <= width,
        -width <= c <= width,
    ensures
        0 <= warped_square(a, b, c, width) <= sphere_scale(width),
{
    let w = width * width;
    let r = a * a;
    let k = curvature(b, c, width);
    lemma_square_bounds(a, width);
    lemma_curvature_bounds(b, c, width);
    lemma_mul_nonnegative(r, k);
    lemma_mul_inequality(r, w, k);
    lemma_mul_inequality(k, 6 * (w * w), w);
    lemma_mul_is_commutative(k, w);
    lemma_mul_is_commutative(6 * (w * w), w);
    lemma_mul_is_associative(w, 6, w * w);
    lemma_mul_is_associative(6, w, w * w);
}

/// A product spread over the four terms of a curvature.
proof fn lemma_spread(m: int, a: int, b: int, c: int, d: int)
    ensures
        m * (6 * a - 3 * b - 3 * c + 2 * d) == 6 * (m * a) - 3 * (m * b) - 3 * (m * c) + 2 * (m
            * d),
{
    assert(m * (6 * a - 3 * b - 3 * c + 2 * d) == 6 * (m * a) - 3 * (m * b) - 3 * (m * c) + 2 * (m
        * d)) by (nonlinear_arith);
}

/// A product of three numbers does not depend on their order.
proof fn lemma_three_factors(a: int, b: int, c: int)
    ensures
        a * (b * c) == b * (a * c),
        a * (b * c) == c * (a * b),
        a * (b * c) == a * (c * b),
{
    assert(a * (b * c) == b * (a * c) && a * (b * c) == c * (a * b) && a * (b * c) == a * (c * b))
        by (nonlinear_arith);
}

/// The warp moves every point of the cube's surface onto the unit sphere:
/// where one coordinate is `width` or `-width`, the squares of the three
/// warped coordinates add up to one.
pub proof fn lemma_warp_reaches_unit_sphere(x: int, y: int, z: int, width: int)
    requires
        x * x == width * width || y * y == width * width || z * z == width * width,
    ensures
        warped_square(x, y, z, width) + warped_square(y, x, z, width) + warped_square(
            z,
            x,
            y,
            width,
        ) == sphere_scale(width),
{
    let w = width * width;
    let r = x * x;
    let s = y * y;
    let t = z * z;
    lemma_spread(r, w * w, w * s, w * t, s * t);
    lemma_spread(s, w * w, w * r, w * t, r * t);
    lemma_spread(t, w * w, w * r, w * s, r * s);
    // the products of `r`, `s` and `w`
    lemma_three_factors(r, w, s);
    lemma_three_factors(s, w, r);
    // the products of `r`, `t` and `w`
    lemma_three_factors(r, w, t);
    lemma_three_factors(t, w, r);
    // the products of `s`, `t` and `w`
    lemma_three_factors(s, w, t);
    lemma_three_factors(t, w, s);
    // the products of `r`, `s` and `t`
    lemma_three_factors(r, s, t);
    lemma_three_factors(s, r, t);
    lemma_three_factors(t, r, s);
    // the products with the square of `w`
    lemma_three_factors(w, w, r);
    lemma_three_factors(w, w, s);
    lemma_three_factors(w, w, t);
    lemma_three_factors(w, r, s);
    lemma_three_factors(w, r, t);
    lemma_three_factors(w, s, t);
}

/// Every point of a face lies on the surface of the cube, within its bounds.
pub proof fn lemma_cube_point_on_surface(side: Side, p: int, q: int, width: int)
    requires
        -width <= p <= width,
        -width <= q <= width,
        0 <= width,
    ensures
        ({
            let v = cube_point(side, p, q, width);
            &&& -width <= v.0 <= width
            &&& -width <= v.1 <= width
            &&& -width <= v.2 <= width
            &&& (v.0 * v.0 == width * width || v.1 * v.1 == width * width || v.2 * v.2 == width
                * width)
        }),
{
    assert((-width) * (-width) == width * width) by (nonlinear_arith);
}

/// Whatever the width of the faces, every corner of every cell of every
/// face is warped onto the unit sphere: the squares of its three
/// coordinates lie between nought and one and add up to one.
pub proof fn lemma_cells_lie_on_unit_sphere(side: Side, ix: int, iy: int, width: int)
    requires
        0 < width,
        0 <= ix <= width,
        0 <= iy <= width,
    ensures
        ({
            let v = cube_point(side, 2 * ix - width, 2 * iy - width, width);
            let x = warped_square(v.0, v.1, v.2, width);
            let y = warped_square(v.1, v.0, v.2, width);
            let z = warped_square(v.2, v.0, v.1, width);
            &&& 0 < sphere_scale(width)
            &&& 0 <= x <= sphere_scale(width)
            &&& 0 <= y <= sphere_scale(width)
            &&& 0 <= z <= sphere_scale(width)
            &&& x + y + z == sphere_scale(width)
        }),
{
    let v = cube_point(side, 2 * ix - width, 2 * iy - width, width);
    let w = width * width;
    lemma_cube_point_on_surface(side, 2 * ix - width, 2 * iy - width, width);
    lemma_warp_reaches_unit_sphere(v.0, v.1, v.2, width);
    lemma_warped_square_bounds(v.0, v.1, v.2, width);
    lemma_warped_square_bounds(v.1, v.0, v.2, width);
    lemma_warped_square_bounds(v.2, v.0, v.1, width);
    lemma_mul_strictly_positive(width, width);
    lemma_mul_strictly_positive(w, w);
    lemma_mul_strictly_positive(w, w * w);
}

/// Up to the widest face, the squares and their common denominator fit into
/// 128 bits.
pub proof fn lemma_scale_fits(width: int)
    requires
        0 < width <= MAX_SPHERE_WIDTH,
    ensures
        0 < width * width <= 0x100_0000_0000,
        0 < (width * width) * (width * width) <= 0x1_0000_0000_0000_0000_0000,
        0 < sphere_scale(width) <= i128::MAX,
{
    let w = width * width;
    lemma_mul_strictly_positive(width, width);
    lemma_mul_strictly_positive(w, w);
    lemma_mul_strictly_positive(w, w * w);
    lemma_mul_upper_bound(width, 1048576, width, 1048576);
    lemma_mul_upper_bound(w, 0x100_0000_0000, w, 0x100_0000_0000);
    lemma_mul_upper_bound(w, 0x100_0000_0000, w * w, 0x1_0000_0000_0000_0000_0000);
}

/// The square of the warped coordinate `a`, beside `b` and `c`, with the
/// sign of `a`.
pub fn warp_axis(a: i128, b: i128, c: i128, width: i128) -> (square: i128)
    requires
        0 < width <= MAX_SPHERE_WIDTH,
        -width <= a <= width,
        -width <= b <= width,
        -width <= c <= width,
    ensures
        square == with_sign_of(a as int, warped_square(a as int, b as int, c as int, width as int)),
        magnitude(square as int) == warped_square(a as int, b as int, c as int, width as int),
{
    proof {
        let w = width * width;
        let s = b * b;
        let t = c * c;
        lemma_scale_fits(width as int);
        lemma_square_bounds(a as int, width as int);
        lemma_square_bounds(b as int, width as int);
        lemma_square_bounds(c as int, width as int);
        lemma_mul_nonnegative(w, s);
        lemma_mul_nonnegative(w, t);
        lemma_mul_nonnegative(s, t);
        lemma_mul_inequality(s, w, w);
        lemma_mul_is_commutative(s, w);
        lemma_mul_inequality(t, w, w);
        lemma_mul_is_commutative(t, w);
        lemma_mul_inequality(t, w, s);
        lemma_mul_is_commutative(t, s);
        lemma_curvature_bounds(b as int, c as int, width as int);
        lemma_warped_square_bounds(a as int, b as int, c as int, width as int);
    }
    let w: i128 = width * width;
    let r: i128 = a * a;
    let s: i128 = b * b;
    let t: i128 = c * c;
    let curve: i128 = 6 * (w * w) - 3 * (w * s) - 3 * (w * t) + 2 * (s * t);
    let square: i128 = r * curve;
    if a < 0 {
        -square
    } else {
        square
    }
}

/// The point of the unit sphere that belongs to the upper left corner of
/// cell `texture_coordinate` of `side`.
///
/// The corner is taken to the surface of the cube (see
/// [`position_on_cube`]) and from there warped onto the sphere. The result
/// holds the squares of the three coordinates; they add up to one.
pub fn position_on_sphere(texture_coordinate: (usize, usize), width: usize, side: Side) -> (point:
    SpherePoint)
    requires
        0 < width <= MAX_SPHERE_WIDTH,
        texture_coordinate.0 <= width,
        texture_coordinate.1 <= width,
    ensures
        point.warps(
            cube_point(
                side,
                2 * texture_coordinate.0 - width,
                2 * texture_coordinate.1 - width,
                width as int,
            ),
            width as int,
        ),
        point.on_unit_sphere(),
{
    let v = position_on_cube(texture_coordinate, width, side);
    let w = width as i128;
    proof {
        let p = 2 * texture_coordinate.0 - width;
        let q = 2 * texture_coordinate.1 - width;
        lemma_cube_point_on_surface(side, p, q, width as int);
        lemma_warp_reaches_unit_sphere(v.0 as int, v.1 as int, v.2 as int, width as int);
        lemma_scale_fits(width as int);
    }
    let x = warp_axis(v.0 as i128, v.1 as i128, v.2 as i128, w);
    let y = warp_axis(v.1 as i128, v.0 as i128, v.2 as i128, w);
    let z = warp_axis(v.2 as i128, v.0 as i128, v.1 as i128, w);
    let scale: i128 = 6 * ((w * w) * ((w * w) * (w * w)));
    SpherePoint { x, y, z, scale }
}

} // verus!
