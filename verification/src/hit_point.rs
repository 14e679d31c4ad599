use crate::ray_tracer::{cross, determinant, difference, dot, spatial, triangle_hit, Triple};
use crate::vector::{lemma_product_bound, Vector};
use vstd::prelude::*;

verus! {

/// The solution of the intersection equations, before any division: with
/// `a` and `b` the two edges, `d` the direction and `r` the way from the
/// first corner to the origin, the determinant times `r`, moved along `d`
/// by the numerator of the ray parameter, is the combination of the edges
/// by the numerators of the barycentric weights.
pub proof fn lemma_cramer(a: Triple, b: Triple, d: Triple, r: Triple)
    ensures
        dot(a, cross(d, b)) * r.x + dot(b, cross(r, a)) * d.x == dot(r, cross(d, b)) * a.x + dot(
            d,
            cross(r, a),
        ) * b.x,
        dot(a, cross(d, b)) * r.y + dot(b, cross(r, a)) * d.y == dot(r, cross(d, b)) * a.y + dot(
            d,
            cross(r, a),
        ) * b.y,
        dot(a, cross(d, b)) * r.z + dot(b, cross(r, a)) * d.z == dot(r, cross(d, b)) * a.z + dot(
            d,
            cross(r, a),
        ) * b.z,
{
    lemma_cramer_component(a.x, a.y, a.z, b.x, b.y, b.z, d.x, d.y, d.z, r.x, r.y, r.z);
    lemma_cramer_component(a.y, a.z, a.x, b.y, b.z, b.x, d.y, d.z, d.x, r.y, r.z, r.x);
    lemma_cramer_component(a.z, a.x, a.y, b.z, b.x, b.y, d.z, d.x, d.y, r.z, r.x, r.y);
}

/// The product of four numbers, in one fixed order of multiplication.
pub open spec fn product4(a: int, b: int, d: int, r: int) -> int {
    a * b * d * r
}

/// A sum of three terms times a factor.
proof fn lemma_distribute(t1: int, t2: int, t3: int, k: int)
    by (nonlinear_arith)
    ensures
        (t1 + t2 + t3) * k == t1 * k + t2 * k + t3 * k,
{
}

/// A factor times a difference of two products, times one more factor.
proof fn lemma_term(x: int, p: int, q: int, r: int, s: int, k: int)
    by (nonlinear_arith)
    ensures
        (x * (p * q - r * s)) * k == (x * (p * q)) * k - (x * (r * s)) * k,
{
}

proof fn lemma_order_adbr(a: int, d: int, b: int, r: int)
    by (nonlinear_arith)
    ensures
        (a * (d * b)) * r == a * b * d * r,
{
}

proof fn lemma_order_brad(b: int, r: int, a: int, d: int)
    by (nonlinear_arith)
    ensures
        (b * (r * a)) * d == a * b * d * r,
{
}

proof fn lemma_order_rdba(r: int, d: int, b: int, a: int)
    by (nonlinear_arith)
    ensures
        (r * (d * b)) * a == a * b * d * r,
{
}

proof fn lemma_order_drab(d: int, r: int, a: int, b: int)
    by (nonlinear_arith)
    ensures
        (d * (r * a)) * b == a * b * d * r,
{
}

proof fn lemma_term_adbr(a: int, d1: int, b1: int, d2: int, b2: int, r: int)
    ensures
        (a * (d1 * b1 - d2 * b2)) * r == product4(a, b1, d1, r) - product4(a, b2, d2, r),
{
    lemma_term(a, d1, b1, d2, b2, r);
    lemma_order_adbr(a, d1, b1, r);
    lemma_order_adbr(a, d2, b2, r);
}

proof fn lemma_term_brad(b: int, r1: int, a1: int, r2: int, a2: int, d: int)
    ensures
        (b * (r1 * a1 - r2 * a2)) * d == product4(a1, b, d, r1) - product4(a2, b, d, r2),
{
    lemma_term(b, r1, a1, r2, a2, d);
    lemma_order_brad(b, r1, a1, d);
    lemma_order_brad(b, r2, a2, d);
}

proof fn lemma_term_rdba(r: int, d1: int, b1: int, d2: int, b2: int, a: int)
    ensures
        (r * (d1 * b1 - d2 * b2)) * a == product4(a, b1, d1, r) - product4(a, b2, d2, r),
{
    lemma_term(r, d1, b1, d2, b2, a);
    lemma_order_rdba(r, d1, b1, a);
    lemma_order_rdba(r, d2, b2, a);
}

proof fn lemma_term_drab(d: int, r1: int, a1: int, r2: int, a2: int, b: int)
    ensures
        (d * (r1 * a1 - r2 * a2)) * b == product4(a1, b, d, r1) - product4(a2, b, d, r2),
{
    lemma_term(d, r1, a1, r2, a2, b);
    lemma_order_drab(d, r1, a1, b);
    lemma_order_drab(d, r2, a2, b);
}

/// One component of the solution of the intersection equations.
pub proof fn lemma_cramer_component(
    ax: int,
    ay: int,
    az: int,
    bx: int,
    by: int,
    bz: int,
    dx: int,
    dy: int,
    dz: int,
    rx: int,
    ry: int,
    rz: int,
)
    ensures
        (ax * (dy * bz - dz * by) + ay * (dz * bx - dx * bz) + az * (dx * by - dy * bx)) * rx + (bx
            * (ry * az - rz * ay) + by * (rz * ax - rx * az) + bz * (rx * ay - ry * ax)) * dx == (rx
            * (dy * bz - dz * by) + ry * (dz * bx - dx * bz) + rz * (dx * by - dy * bx)) * ax + (dx
            * (ry * az - rz * ay) + dy * (rz * ax - rx * az) + dz * (rx * ay - ry * ax)) * bx,
{
    lemma_distribute(ax * (dy * bz - dz * by), ay * (dz * bx - dx * bz), az * (dx * by - dy * bx), rx);
    lemma_term_adbr(ax, dy, bz, dz, by, rx);
    lemma_term_adbr(ay, dz, bx, dx, bz, rx);
    lemma_term_adbr(az, dx, by, dy, bx, rx);
    lemma_distribute(bx * (ry * az - rz * ay), by * (rz * ax - rx * az), bz * (rx * ay - ry * ax), dx);
    lemma_term_brad(bx, ry, az, rz, ay, dx);
    lemma_term_brad(by, rz, ax, rx, az, dx);
    lemma_term_brad(bz, rx, ay, ry, ax, dx);
    lemma_distribute(rx * (dy * bz - dz * by), ry * (dz * bx - dx * bz), rz * (dx * by - dy * bx), ax);
    lemma_term_rdba(rx, dy, bz, dz, by, ax);
    lemma_term_rdba(ry, dz, bx, dx, bz, ax);
    lemma_term_rdba(rz, dx, by, dy, bx, ax);
    lemma_distribute(dx * (ry * az - rz * ay), dy * (rz * ax - rx * az), dz * (rx * ay - ry * ax), bx);
    lemma_term_drab(dx, ry, az, rz, ay, bx);
    lemma_term_drab(dy, rz, ax, rx, az, bx);
    lemma_term_drab(dz, rx, ay, ry, ax, bx);
}

/// The three numbers are each at most `bound` in magnitude.
pub open spec fn small(a: Triple, bound: int) -> bool {
    -bound <= a.x <= bound && -bound <= a.y <= bound && -bound <= a.z <= bound
}

/// The vector product of two small vectors is small.
pub proof fn lemma_cross_is_small(a: Triple, b: Triple, bound_a: int, bound_b: int)
    requires
        small(a, bound_a),
        small(b, bound_b),
    ensures
        small(cross(a, b), 2 * (bound_a * bound_b)),
{
    lemma_product_bound(a.y, b.z, bound_a, bound_b);
    lemma_product_bound(a.z, b.y, bound_a, bound_b);
    lemma_product_bound(a.z, b.x, bound_a, bound_b);
    lemma_product_bound(a.x, b.z, bound_a, bound_b);
    lemma_product_bound(a.x, b.y, bound_a, bound_b);
    lemma_product_bound(a.y, b.x, bound_a, bound_b);
}

/// The scalar product of two small vectors is small.
pub proof fn lemma_dot_is_small(a: Triple, b: Triple, bound_a: int, bound_b: int)
    requires
        small(a, bound_a),
        small(b, bound_b),
    ensures
        -(3 * (bound_a * bound_b)) <= dot(a, b) <= 3 * (bound_a * bound_b),
{
    lemma_product_bound(a.x, b.x, bound_a, bound_b);
    lemma_product_bound(a.y, b.y, bound_a, bound_b);
    lemma_product_bound(a.z, b.z, bound_a, bound_b);
}

/// A number times a difference.
pub proof fn lemma_times_difference(k: int, a: int, b: int)
    by (nonlinear_arith)
    ensures
        k * (a - b) == k * a - k * b,
        (a - b) * k == a * k - b * k,
        k * a == a * k,
{
}

/// What a hit says, exactly: the scale is positive, the weights of the
/// three corners are not negative and add up to the scale, the ray
/// parameter is not negative, and the point of the ray at that parameter is
/// the point of the triangle with those weights. Along every axis,
/// `origin * scale + t * direction
///  == (scale - u - v) * v_0 + u * v_1 + v * v_2`.
pub proof fn lemma_hit_point(
    origin: Vector,
    direction: Vector,
    v_0: Vector,
    v_1: Vector,
    v_2: Vector,
)
    requires
        origin.in_range(),
        direction.in_range(),
        v_0.in_range(),
        v_1.in_range(),
        v_2.in_range(),
        triangle_hit(origin, direction, v_0, v_1, v_2) is Some,
    ensures
        ({
            let hit = triangle_hit(origin, direction, v_0, v_1, v_2)->0;
            &&& hit.scale > 0
            &&& hit.u >= 0
            &&& hit.v >= 0
            &&& hit.u + hit.v <= hit.scale
            &&& hit.t >= 0
            &&& hit.scale == magnitude_of(determinant(direction, v_0, v_1, v_2))
            &&& forall|axis: int|
                0 <= axis < 3 ==> #[trigger] origin.component(axis) * hit.scale + hit.t
                    * direction.component(axis) == (hit.scale - hit.u - hit.v) * v_0.component(axis)
                    + hit.u * v_1.component(axis) + hit.v * v_2.component(axis)
        }),
{
    let a = difference(v_1, v_0);
    let b = difference(v_2, v_0);
    let d = spatial(direction);
    let r = difference(origin, v_0);
    let p = cross(d, b);
    let q = cross(r, a);
    lemma_cross_is_small(d, b, 0x4_0000, 0x8_0000);
    lemma_cross_is_small(r, a, 0x8_0000, 0x8_0000);
    lemma_dot_is_small(a, p, 0x8_0000, 0x40_0000_0000);
    lemma_dot_is_small(b, q, 0x8_0000, 0x80_0000_0000);
    lemma_cramer(a, b, d, r);
    let hit = triangle_hit(origin, direction, v_0, v_1, v_2)->0;
    let det = dot(a, p);
    assert forall|axis: int| 0 <= axis < 3 implies #[trigger] origin.component(axis) * hit.scale
        + hit.t * direction.component(axis) == (hit.scale - hit.u - hit.v) * v_0.component(axis)
        + hit.u * v_1.component(axis) + hit.v * v_2.component(axis) by {
        let o = origin.component(axis);
        let e = direction.component(axis);
        let c0 = v_0.component(axis);
        let c1 = v_1.component(axis);
        let c2 = v_2.component(axis);
        let s = hit.scale as int;
        let u = hit.u as int;
        let v = hit.v as int;
        // From the solved equations: s * (o - c0) + t * e == u * (c1 - c0) + v * (c2 - c0).
        lemma_negate_products(det, o - c0, dot(b, q), e, dot(r, p), c1 - c0, dot(d, q), c2 - c0);
        lemma_times_difference(s, o, c0);
        lemma_times_difference(u, c1, c0);
        lemma_times_difference(v, c2, c0);
        lemma_times_difference(s - u, c0, 0);
        lemma_combine_weights(s, u, v, c0);
    }
}

/// The magnitude of a number.
pub open spec fn magnitude_of(value: int) -> int {
    if value < 0 { -value } else { value }
}

/// An equation between sums of two products stays true when the first
/// factor of every product changes its sign.
proof fn lemma_negate_products(
    a: int,
    x: int,
    b: int,
    y: int,
    c: int,
    z: int,
    d: int,
    w: int,
)
    by (nonlinear_arith)
    requires
        a * x + b * y == c * z + d * w,
    ensures
        (-a) * x + (-b) * y == (-c) * z + (-d) * w,
{
}

/// The weight of the first corner, taken apart.
proof fn lemma_combine_weights(s: int, u: int, v: int, c: int)
    by (nonlinear_arith)
    ensures
        (s - u - v) * c == s * c - u * c - v * c,
        c * s == s * c,
{
}

} // verus!
