use crate::vector::{Vector, COORD_MAX, COORD_MIN};
use vstd::arithmetic::div_mod::lemma_fundamental_div_mod_converse;
use vstd::prelude::*;

verus! {

/// A mesh corner: a position and the surface direction at it.
#[derive(Clone, Copy, Debug, PartialEq, Eq, Structural)]
pub struct Vertex {
    pub pos: Vector,
    pub normal: Vector,
}

impl Vertex {
    pub fn new(pos: Vector, norm: Vector) -> (v: Self)
        ensures
            v.pos == pos,
            v.normal == norm,
    {
        Vertex { pos, normal: norm }
    }
}

/// A triangle list: every three consecutive indices name one triangle.
pub struct Mesh {
    pub vertices: Vec<Vertex>,
    pub indices: Vec<u32>,
    pub num_tris: u32,
}

impl Mesh {
    /// The index list holds three entries per triangle, every entry names a
    /// vertex, and every vertex position is a legal scene coordinate.
    pub open spec fn wf(&self) -> bool {
        &&& self.indices@.len() == 3 * self.num_tris
        &&& forall|i: int|
            0 <= i < self.indices@.len() ==> (#[trigger] self.indices@[i]) < self.vertices@.len()
        &&& forall|i: int|
            0 <= i < self.vertices@.len() ==> (#[trigger] self.vertices@[i]).pos.in_range()
    }

    /// Whether the mesh is well formed.
    pub fn is_wf(&self) -> (legal: bool)
        ensures
            legal == self.wf(),
    {
        if self.indices.len() as u64 != 3 * (self.num_tris as u64) {
            return false;
        }
        let mut i: usize = 0;
        while i < self.indices.len()
            invariant
                i <= self.indices@.len(),
                forall|k: int|
                    0 <= k < i ==> (#[trigger] self.indices@[k]) < self.vertices@.len(),
            decreases self.indices@.len() - i,
        {
            if self.indices[i] as usize >= self.vertices.len() {
                return false;
            }
            i += 1;
        }
        let mut j: usize = 0;
        while j < self.vertices.len()
            invariant
                j <= self.vertices@.len(),
                forall|k: int| 0 <= k < j ==> (#[trigger] self.vertices@[k]).pos.in_range(),
            decreases self.vertices@.len() - j,
        {
            if !self.vertices[j].pos.is_in_range() {
                return false;
            }
            j += 1;
        }
        true
    }

    /// The position of corner `corner` (0, 1 or 2) of the triangle whose
    /// first index sits at `offset` in the index list.
    pub open spec fn corner(&self, offset: int, corner: int) -> Vector {
        self.vertices@[self.indices@[offset + corner] as int].pos
    }
}

/// An axis aligned box given by its lower and upper corner.
#[derive(Clone, Copy, Debug, PartialEq, Eq, Structural)]
pub struct BoundingBox {
    pub lower: Vector,
    pub upper: Vector,
}

pub open spec fn min_int(a: int, b: int) -> int {
    if a < b { a } else { b }
}

pub open spec fn max_int(a: int, b: int) -> int {
    if a > b { a } else { b }
}

/// The magnitude of `d`.
pub open spec fn magnitude(d: int) -> int {
    if d < 0 { -d } else { d }
}

fn smaller(a: i64, b: i64) -> (m: i64)
    ensures
        m == min_int(a as int, b as int),
{
    if a < b { a } else { b }
}

fn larger(a: i64, b: i64) -> (m: i64)
    ensures
        m == max_int(a as int, b as int),
{
    if a > b { a } else { b }
}

impl BoundingBox {
    /// The box that holds nothing: joining it with anything gives the other.
    pub open spec fn empty() -> BoundingBox {
        BoundingBox {
            lower: Vector { x: COORD_MAX, y: COORD_MAX, z: COORD_MAX, w: 0 },
            upper: Vector { x: COORD_MIN, y: COORD_MIN, z: COORD_MIN, w: 0 },
        }
    }

    /// Both corners are legal scene coordinates.
    pub open spec fn in_range(self) -> bool {
        self.lower.in_range() && self.upper.in_range()
    }

    /// The box holds at least one point.
    pub open spec fn inhabited(self) -> bool {
        &&& self.lower.x <= self.upper.x
        &&& self.lower.y <= self.upper.y
        &&& self.lower.z <= self.upper.z
    }

    /// The smallest box around `self` and `other`.
    pub open spec fn join(self, other: BoundingBox) -> BoundingBox {
        BoundingBox {
            lower: Vector {
                x: min_int(self.lower.x as int, other.lower.x as int) as i64,
                y: min_int(self.lower.y as int, other.lower.y as int) as i64,
                z: min_int(self.lower.z as int, other.lower.z as int) as i64,
                w: 0,
            },
            upper: Vector {
                x: max_int(self.upper.x as int, other.upper.x as int) as i64,
                y: max_int(self.upper.y as int, other.upper.y as int) as i64,
                z: max_int(self.upper.z as int, other.upper.z as int) as i64,
                w: 0,
            },
        }
    }

    /// The box that holds exactly the point `p`.
    pub open spec fn point(p: Vector) -> BoundingBox {
        BoundingBox { lower: p, upper: p }
    }

    /// Whether `other` lies inside `self`.
    pub open spec fn encloses(self, other: BoundingBox) -> bool {
        &&& self.lower.x <= other.lower.x && other.upper.x <= self.upper.x
        &&& self.lower.y <= other.lower.y && other.upper.y <= self.upper.y
        &&& self.lower.z <= other.lower.z && other.upper.z <= self.upper.z
    }

    /// Whether the point `p` lies inside `self`.
    pub open spec fn holds(self, p: Vector) -> bool {
        self.encloses(Self::point(p))
    }

    /// The side length along axis number `axis`.
    pub open spec fn extent(self, axis: int) -> int {
        self.upper.component(axis) - self.lower.component(axis)
    }

    /// The number of the longest axis; x only wins when strictly longest,
    /// and z wins a tie with y.
    pub open spec fn longest_axis(self) -> int {
        if self.extent(0) > self.extent(1) && self.extent(0) > self.extent(2) {
            0
        } else if self.extent(1) > self.extent(2) {
            1
        } else {
            2
        }
    }

    /// The surface area, from the three side lengths.
    pub open spec fn area(self) -> int {
        2 * (self.extent(0) * self.extent(1) + self.extent(0) * self.extent(2) + self.extent(1)
            * self.extent(2))
    }

    /// The position of `value` between `lo` and `hi` in steps of
    /// `1 / scale`, rounded down; the plain distance from `lo` when the
    /// interval has no width.
    pub open spec fn fraction(value: int, lo: int, hi: int, scale: int) -> int {
        if lo < hi {
            ((value - lo) * scale) / (hi - lo)
        } else {
            value - lo
        }
    }

    /// Whether the box is a legal box that holds at least one point.
    pub fn is_usable(self) -> (legal: bool)
        ensures
            legal == (self.in_range() && self.inhabited()),
    {
        self.lower.is_in_range() && self.upper.is_in_range() && self.lower.x <= self.upper.x
            && self.lower.y <= self.upper.y && self.lower.z <= self.upper.z
    }

    pub fn new() -> (b: Self)
        ensures
            b == Self::empty(),
            b.in_range(),
    {
        BoundingBox {
            lower: Vector::vec3(COORD_MAX, COORD_MAX, COORD_MAX),
            upper: Vector::vec3(COORD_MIN, COORD_MIN, COORD_MIN),
        }
    }

    pub fn union(self, other: BoundingBox) -> (b: Self)
        ensures
            b == self.join(other),
            self.in_range() && other.in_range() ==> b.in_range(),
    {
        BoundingBox {
            lower: Vector::vec3(
                smaller(self.lower.x, other.lower.x),
                smaller(self.lower.y, other.lower.y),
                smaller(self.lower.z, other.lower.z),
            ),
            upper: Vector::vec3(
                larger(self.upper.x, other.upper.x),
                larger(self.upper.y, other.upper.y),
                larger(self.upper.z, other.upper.z),
            ),
        }
    }

    pub fn union_from_vector(self, other: Vector) -> (b: Self)
        ensures
            b == self.join(Self::point(other)),
            self.in_range() && other.in_range() ==> b.in_range(),
    {
        BoundingBox {
            lower: Vector::vec3(
                smaller(self.lower.x, other.x),
                smaller(self.lower.y, other.y),
                smaller(self.lower.z, other.z),
            ),
            upper: Vector::vec3(
                larger(self.upper.x, other.x),
                larger(self.upper.y, other.y),
                larger(self.upper.z, other.z),
            ),
        }
    }

    pub fn maximum_extent(self) -> (axis: u8)
        requires
            self.in_range(),
        ensures
            axis == self.longest_axis(),
    {
        let d = self.diagonal();
        if d.x > d.y && d.x > d.z {
            0
        } else if d.y > d.z {
            1
        } else {
            2
        }
    }

    pub fn diagonal(self) -> (d: Vector)
        requires
            self.in_range(),
        ensures
            d.x == self.extent(0),
            d.y == self.extent(1),
            d.z == self.extent(2),
            d.w == 0,
    {
        Vector::vec3(
            self.upper.x - self.lower.x,
            self.upper.y - self.lower.y,
            self.upper.z - self.lower.z,
        )
    }

    pub fn min(self) -> (corner: Vector)
        ensures
            corner == self.lower,
    {
        self.lower
    }

    pub fn max(self) -> (corner: Vector)
        ensures
            corner == self.upper,
    {
        self.upper
    }

    /// Grows the box just enough to hold `pos`; the fourth components of
    /// the corners stay as they are.
    pub fn extend_bounds(&mut self, pos: Vector)
        ensures
            final(self).lower.x == min_int(old(self).lower.x as int, pos.x as int),
            final(self).lower.y == min_int(old(self).lower.y as int, pos.y as int),
            final(self).lower.z == min_int(old(self).lower.z as int, pos.z as int),
            final(self).upper.x == max_int(old(self).upper.x as int, pos.x as int),
            final(self).upper.y == max_int(old(self).upper.y as int, pos.y as int),
            final(self).upper.z == max_int(old(self).upper.z as int, pos.z as int),
            final(self).lower.w == old(self).lower.w,
            final(self).upper.w == old(self).upper.w,
    {
        if pos.x < self.lower.x {
            self.lower.x = pos.x;
        }
        if pos.y < self.lower.y {
            self.lower.y = pos.y;
        }
        if pos.z < self.lower.z {
            self.lower.z = pos.z;
        }
        if pos.x > self.upper.x {
            self.upper.x = pos.x;
        }
        if pos.y > self.upper.y {
            self.upper.y = pos.y;
        }
        if pos.z > self.upper.z {
            self.upper.z = pos.z;
        }
    }

    /// Where `point` sits inside the box, per axis, as a fraction of the
    /// side length counted in steps of `1 / scale`.
    pub fn offset(self, point: Vector, scale: u32) -> (o: Vector)
        requires
            self.in_range(),
            point.in_range(),
            self.holds(point),
        ensures
            o.x == Self::fraction(point.x as int, self.lower.x as int, self.upper.x as int, scale as int),
            o.y == Self::fraction(point.y as int, self.lower.y as int, self.upper.y as int, scale as int),
            o.z == Self::fraction(point.z as int, self.lower.z as int, self.upper.z as int, scale as int),
            o.w == 0,
    {
        Vector::vec3(
            scaled_fraction(point.x, self.lower.x, self.upper.x, scale),
            scaled_fraction(point.y, self.lower.y, self.upper.y, scale),
            scaled_fraction(point.z, self.lower.z, self.upper.z, scale),
        )
    }

    pub fn surface_area(self) -> (a: i64)
        requires
            self.in_range(),
        ensures
            a == self.area(),
            0 <= a || !self.inhabited(),
    {
        let d = self.diagonal();
        proof {
            lemma_side_product(d.x as int, d.y as int);
            lemma_side_product(d.x as int, d.z as int);
            lemma_side_product(d.y as int, d.z as int);
        }
        2 * (d.x * d.y + d.x * d.z + d.y * d.z)
    }
}

/// The product of two side lengths of a box in range, and its sign when
/// both sides have a length.
pub proof fn lemma_side_product(a: int, b: int)
    by (nonlinear_arith)
    requires
        -2 * COORD_MAX <= a <= 2 * COORD_MAX,
        -2 * COORD_MAX <= b <= 2 * COORD_MAX,
    ensures
        -4 * COORD_MAX * COORD_MAX <= a * b <= 4 * COORD_MAX * COORD_MAX,
        a >= 0 && b >= 0 ==> a * b >= 0,
{
}

fn scaled_fraction(value: i64, lo: i64, hi: i64, scale: u32) -> (f: i64)
    requires
        COORD_MIN <= lo <= value <= hi <= COORD_MAX,
    ensures
        f == BoundingBox::fraction(value as int, lo as int, hi as int, scale as int),
        0 <= f,
        lo < hi ==> f <= scale,
{
    if lo < hi {
        let distance: i64 = value - lo;
        let width: i64 = hi - lo;
        proof {
            lemma_fraction_bounds(distance as int, width as int, scale as int);
        }
        (distance * (scale as i64)) / width
    } else {
        value - lo
    }
}

/// A part of a width, scaled up and divided by the width, lies between 0
/// and the scale, and the scaled part itself stays small.
pub proof fn lemma_fraction_bounds(distance: int, width: int, scale: int)
    by (nonlinear_arith)
    requires
        0 <= distance <= width,
        0 < width <= 2 * COORD_MAX,
        0 <= scale <= 0xffff_ffff,
    ensures
        0 <= distance * scale <= 2 * COORD_MAX * 0xffff_ffff,
        0 <= (distance * scale) / width <= scale,
{
}

/// Whether `sign` records, per axis, that the direction points backwards
/// (1) or not (0).
pub open spec fn sign_of(direction: Vector, sign: [i8; 3]) -> bool {
    &&& sign@[0] == (if direction.x < 0 { 1i8 } else { 0i8 })
    &&& sign@[1] == (if direction.y < 0 { 1i8 } else { 0i8 })
    &&& sign@[2] == (if direction.z < 0 { 1i8 } else { 0i8 })
}

impl BoundingBox {
    /// The ray parameter at which the ray enters the slab of axis `axis`,
    /// multiplied by the magnitude of the direction along that axis.
    pub open spec fn entry(self, origin: Vector, direction: Vector, axis: int) -> int {
        if direction.component(axis) < 0 {
            origin.component(axis) - self.upper.component(axis)
        } else {
            self.lower.component(axis) - origin.component(axis)
        }
    }

    /// The ray parameter at which the ray leaves the slab of axis `axis`,
    /// multiplied by the magnitude of the direction along that axis.
    pub open spec fn exit(self, origin: Vector, direction: Vector, axis: int) -> int {
        if direction.component(axis) < 0 {
            origin.component(axis) - self.lower.component(axis)
        } else {
            self.upper.component(axis) - origin.component(axis)
        }
    }

    /// A ray that does not move along `axis` must start inside that slab.
    pub open spec fn admits(self, origin: Vector, direction: Vector, axis: int) -> bool {
        direction.component(axis) == 0 ==> self.lower.component(axis) <= origin.component(axis)
            <= self.upper.component(axis)
    }

    /// The ray does not leave the slab of axis `b` before it enters the
    /// slab of axis `a`. Axes along which the ray does not move take no
    /// part.
    pub open spec fn overlaps(self, origin: Vector, direction: Vector, a: int, b: int) -> bool {
        direction.component(a) != 0 && direction.component(b) != 0 ==> self.entry(
            origin,
            direction,
            a,
        ) * magnitude(direction.component(b)) <= self.exit(origin, direction, b) * magnitude(
            direction.component(a),
        )
    }

    /// The slab test: the line through `origin` along `direction` passes
    /// through the three slabs of the box at a common parameter.
    pub open spec fn meets(self, origin: Vector, direction: Vector) -> bool {
        &&& self.admits(origin, direction, 0)
        &&& self.admits(origin, direction, 1)
        &&& self.admits(origin, direction, 2)
        &&& self.overlaps(origin, direction, 0, 1)
        &&& self.overlaps(origin, direction, 1, 0)
        &&& self.overlaps(origin, direction, 0, 2)
        &&& self.overlaps(origin, direction, 2, 0)
        &&& self.overlaps(origin, direction, 1, 2)
        &&& self.overlaps(origin, direction, 2, 1)
    }

    /// The point `origin + (t_num / t_den) * direction` lies in the box.
    pub open spec fn holds_ray_point(
        self,
        origin: Vector,
        direction: Vector,
        t_num: int,
        t_den: int,
    ) -> bool {
        forall|axis: int|
            0 <= axis < 3 ==> self.lower.component(axis) * t_den <= #[trigger] origin.component(
                axis,
            ) * t_den + t_num * direction.component(axis) <= self.upper.component(axis) * t_den
    }

    /// The slab test against a ray. `sign` is the per axis record of
    /// backward motion, computed once per ray.
    pub fn intersect(&self, ray_origin: Vector, ray_dir: Vector, sign: [i8; 3]) -> (hit: bool)
        requires
            ray_dir.in_range(),
            sign_of(ray_dir, sign),
        ensures
            hit == self.meets(ray_origin, ray_dir),
    {
        let (nx, fx) = slab_span(self.lower.x, self.upper.x, ray_origin.x, sign[0]);
        let (ny, fy) = slab_span(self.lower.y, self.upper.y, ray_origin.y, sign[1]);
        let (nz, fz) = slab_span(self.lower.z, self.upper.z, ray_origin.z, sign[2]);
        let dx: i64 = speed(ray_dir.x);
        let dy: i64 = speed(ray_dir.y);
        let dz: i64 = speed(ray_dir.z);

        if dx == 0 && (ray_origin.x < self.lower.x || ray_origin.x > self.upper.x) {
            return false;
        }
        if dy == 0 && (ray_origin.y < self.lower.y || ray_origin.y > self.upper.y) {
            return false;
        }
        if dz == 0 && (ray_origin.z < self.lower.z || ray_origin.z > self.upper.z) {
            return false;
        }
        if later(nx, dx, fy, dy) || later(ny, dy, fx, dx) {
            return false;
        }
        if later(nx, dx, fz, dz) || later(nz, dz, fx, dx) {
            return false;
        }
        if later(ny, dy, fz, dz) || later(nz, dz, fy, dy) {
            return false;
        }
        true
    }
}

/// Entry and exit of one slab, each multiplied by the speed along the axis.
fn slab_span(lower: i64, upper: i64, origin: i64, sign: i8) -> (span: (i128, i128))
    ensures
        span.0 == (if sign == 1 { origin - upper } else { lower - origin }),
        span.1 == (if sign == 1 { origin - lower } else { upper - origin }),
{
    if sign == 1 {
        ((origin as i128) - (upper as i128), (origin as i128) - (lower as i128))
    } else {
        ((lower as i128) - (origin as i128), (upper as i128) - (origin as i128))
    }
}

fn speed(d: i64) -> (m: i64)
    requires
        COORD_MIN <= d <= COORD_MAX,
    ensures
        m == magnitude(d as int),
        0 <= m <= COORD_MAX,
{
    if d < 0 { -d } else { d }
}

/// Whether the entry `entry / entry_speed` comes after the exit
/// `exit / exit_speed`. A speed of zero marks an axis that takes no part.
fn later(entry: i128, entry_speed: i64, exit: i128, exit_speed: i64) -> (l: bool)
    requires
        -0x1_0000_0000_0000_0000 <= entry <= 0x1_0000_0000_0000_0000,
        -0x1_0000_0000_0000_0000 <= exit <= 0x1_0000_0000_0000_0000,
        0 <= entry_speed <= COORD_MAX,
        0 <= exit_speed <= COORD_MAX,
    ensures
        l == (entry_speed != 0 && exit_speed != 0 && entry * exit_speed > exit * entry_speed),
{
    if entry_speed == 0 || exit_speed == 0 {
        return false;
    }
    proof {
        crate::vector::lemma_product_bound(
            entry as int,
            exit_speed as int,
            0x1_0000_0000_0000_0000,
            COORD_MAX as int,
        );
        crate::vector::lemma_product_bound(
            exit as int,
            entry_speed as int,
            0x1_0000_0000_0000_0000,
            COORD_MAX as int,
        );
    }
    entry * (exit_speed as i128) > exit * (entry_speed as i128)
}

/// Between a lower bound `entry / entry_speed <= t` and an upper bound
/// `t <= exit / exit_speed` on one parameter `t = t_num / t_den`, the entry
/// cannot come after the exit.
pub proof fn lemma_entry_before_exit(
    entry: int,
    entry_speed: int,
    exit: int,
    exit_speed: int,
    t_num: int,
    t_den: int,
)
    by (nonlinear_arith)
    requires
        t_den > 0,
        entry_speed > 0,
        exit_speed > 0,
        entry * t_den <= t_num * entry_speed,
        t_num * exit_speed <= exit * t_den,
    ensures
        entry * exit_speed <= exit * entry_speed,
{
}

impl BoundingBox {
    /// The slab test never misses: when some point of the line through
    /// `origin` along `direction` lies in the box, the test reports a hit.
    pub proof fn lemma_point_in_box_is_met(
        self,
        origin: Vector,
        direction: Vector,
        t_num: int,
        t_den: int,
    )
        requires
            t_den > 0,
            self.holds_ray_point(origin, direction, t_num, t_den),
        ensures
            self.meets(origin, direction),
    {
        assert forall|a: int| 0 <= a < 3 implies self.admits(origin, direction, a) by {
            if direction.component(a) == 0 {
                lemma_cancel(self.lower.component(a), origin.component(a), t_den);
                lemma_cancel(origin.component(a), self.upper.component(a), t_den);
            }
        }
        assert forall|a: int, b: int| 0 <= a < 3 && 0 <= b < 3 implies self.overlaps(
            origin,
            direction,
            a,
            b,
        ) by {
            if direction.component(a) != 0 && direction.component(b) != 0 {
                self.lemma_slab_brackets(origin, direction, a, t_num, t_den);
                self.lemma_slab_brackets(origin, direction, b, t_num, t_den);
                lemma_entry_before_exit(
                    self.entry(origin, direction, a),
                    magnitude(direction.component(a)),
                    self.exit(origin, direction, b),
                    magnitude(direction.component(b)),
                    t_num,
                    t_den,
                );
            }
        }
    }

    /// A ray point inside the box lies between entry and exit of each slab
    /// along which the ray moves.
    proof fn lemma_slab_brackets(
        self,
        origin: Vector,
        direction: Vector,
        axis: int,
        t_num: int,
        t_den: int,
    )
        requires
            0 <= axis < 3,
            self.holds_ray_point(origin, direction, t_num, t_den),
        ensures
            self.entry(origin, direction, axis) * t_den <= t_num * magnitude(
                direction.component(axis),
            ),
            t_num * magnitude(direction.component(axis)) <= self.exit(origin, direction, axis)
                * t_den,
    {
        let o = origin.component(axis);
        let d = direction.component(axis);
        let lo = self.lower.component(axis);
        let hi = self.upper.component(axis);
        assert((lo - o) * t_den == lo * t_den - o * t_den) by (nonlinear_arith);
        assert((hi - o) * t_den == hi * t_den - o * t_den) by (nonlinear_arith);
        assert((o - lo) * t_den == o * t_den - lo * t_den) by (nonlinear_arith);
        assert((o - hi) * t_den == o * t_den - hi * t_den) by (nonlinear_arith);
        assert(t_num * (-d) == -(t_num * d)) by (nonlinear_arith);
    }

    /// The slab test does not depend on the order of the axes: exchanging
    /// two axes in the box and in the ray leaves the answer as it was.
    pub proof fn lemma_meets_ignores_axis_order(self, origin: Vector, direction: Vector)
        ensures
            self.meets(origin, direction) == self.swap_xy().meets(
                swap_xy(origin),
                swap_xy(direction),
            ),
            self.meets(origin, direction) == self.swap_yz().meets(
                swap_yz(origin),
                swap_yz(direction),
            ),
    {
    }

    /// The box with its x and y axes exchanged.
    pub open spec fn swap_xy(self) -> BoundingBox {
        BoundingBox { lower: swap_xy(self.lower), upper: swap_xy(self.upper) }
    }

    /// The box with its y and z axes exchanged.
    pub open spec fn swap_yz(self) -> BoundingBox {
        BoundingBox { lower: swap_yz(self.lower), upper: swap_yz(self.upper) }
    }
}

/// The vector with its x and y components exchanged.
pub open spec fn swap_xy(v: Vector) -> Vector {
    Vector { x: v.y, y: v.x, z: v.z, w: v.w }
}

/// The vector with its y and z components exchanged.
pub open spec fn swap_yz(v: Vector) -> Vector {
    Vector { x: v.x, y: v.z, z: v.y, w: v.w }
}

/// A positive common factor can be dropped from an inequality.
pub proof fn lemma_cancel(a: int, b: int, factor: int)
    by (nonlinear_arith)
    requires
        factor > 0,
        a * factor <= b * factor,
    ensures
        a <= b,
{
}

/// A triangle in the plane z = 0 with its corners at `(-1, -1)`, `(1, -1)`
/// and `(0, 1)`, facing the positive z axis.
pub fn create_triangle() -> (mesh: Mesh)
    ensures
        mesh.wf(),
        mesh.num_tris == 1,
        mesh.vertices@.len() == 3,
        mesh.corner(0, 0) == (Vector { x: -1i64, y: -1i64, z: 0, w: 0 }),
        mesh.corner(0, 1) == (Vector { x: 1, y: -1i64, z: 0, w: 0 }),
        mesh.corner(0, 2) == (Vector { x: 0, y: 1, z: 0, w: 0 }),
        forall|i: int|
            0 <= i < 3 ==> (#[trigger] mesh.vertices@[i]).normal == (Vector {
                x: 0,
                y: 0,
                z: 1,
                w: 0,
            }),
{
    let mut vertices: Vec<Vertex> = Vec::new();
    let mut indices: Vec<u32> = Vec::new();
    vertices.push(Vertex::new(Vector::vec3(-1, -1, 0), Vector::vec3(0, 0, 1)));
    vertices.push(Vertex::new(Vector::vec3(1, -1, 0), Vector::vec3(0, 0, 1)));
    vertices.push(Vertex::new(Vector::vec3(0, 1, 0), Vector::vec3(0, 0, 1)));
    indices.push(0);
    indices.push(1);
    indices.push(2);
    Mesh { vertices, indices, num_tris: 1 }
}

/// The four corners of a quad with one normal: lower left, lower right,
/// upper left, upper right, as seen from the side the normal points to.
pub open spec fn quad(
    normal: Vector,
    lower_left: Vector,
    lower_right: Vector,
    upper_left: Vector,
    upper_right: Vector,
) -> Seq<Vertex> {
    seq![
        Vertex { pos: lower_left, normal },
        Vertex { pos: lower_right, normal },
        Vertex { pos: upper_left, normal },
        Vertex { pos: upper_right, normal },
    ]
}

/// The indices of the two triangles of a quad whose corners start at
/// vertex number `first`.
pub open spec fn quad_indices(first: int) -> Seq<u32> {
    seq![
        (first + 1) as u32,
        (first + 3) as u32,
        first as u32,
        (first + 2) as u32,
        first as u32,
        (first + 3) as u32,
    ]
}

/// Appends the four corners of a quad and its two triangles.
fn push_quad(
    vertices: &mut Vec<Vertex>,
    indices: &mut Vec<u32>,
    normal: Vector,
    lower_left: Vector,
    lower_right: Vector,
    upper_left: Vector,
    upper_right: Vector,
)
    requires
        old(vertices)@.len() + 4 <= u32::MAX,
    ensures
        final(vertices)@ == old(vertices)@ + quad(
            normal,
            lower_left,
            lower_right,
            upper_left,
            upper_right,
        ),
        final(indices)@ == old(indices)@ + quad_indices(old(vertices)@.len() as int),
{
    let first: u32 = vertices.len() as u32;
    vertices.push(Vertex::new(lower_left, normal));
    vertices.push(Vertex::new(lower_right, normal));
    vertices.push(Vertex::new(upper_left, normal));
    vertices.push(Vertex::new(upper_right, normal));
    indices.push(first + 1);
    indices.push(first + 3);
    indices.push(first);
    indices.push(first + 2);
    indices.push(first);
    indices.push(first + 3);
}

/// A lattice vector without a fourth component.
pub open spec fn point3(x: int, y: int, z: int) -> Vector {
    Vector { x: x as i64, y: y as i64, z: z as i64, w: 0 }
}

/// The vertices of the box that reaches `w`, `h` and `d` to both sides of
/// the origin: front, back, left, right, top and bottom quad.
pub open spec fn box_vertices(w: int, h: int, d: int) -> Seq<Vertex> {
    quad(
        point3(0, 0, 1),
        point3(-w, -h, d),
        point3(w, -h, d),
        point3(-w, h, d),
        point3(w, h, d),
    ) + quad(
        point3(0, 0, -1),
        point3(w, -h, -d),
        point3(-w, -h, -d),
        point3(w, h, -d),
        point3(-w, h, -d),
    ) + quad(
        point3(-1, 0, 0),
        point3(-w, -h, -d),
        point3(-w, -h, d),
        point3(-w, h, -d),
        point3(-w, h, d),
    ) + quad(
        point3(1, 0, 0),
        point3(w, -h, d),
        point3(w, -h, -d),
        point3(w, h, d),
        point3(w, h, -d),
    ) + quad(
        point3(0, 1, 0),
        point3(-w, h, d),
        point3(w, h, d),
        point3(-w, h, -d),
        point3(w, h, -d),
    ) + quad(
        point3(0, -1, 0),
        point3(-w, -h, -d),
        point3(w, -h, -d),
        point3(-w, -h, d),
        point3(w, -h, d),
    )
}

/// The indices of the twelve triangles of a box.
pub open spec fn box_indices() -> Seq<u32> {
    quad_indices(0) + quad_indices(4) + quad_indices(8) + quad_indices(12) + quad_indices(16)
        + quad_indices(20)
}

/// A box around the origin, `width` by `height` by `depth`, as six quads
/// with their own corners and normals. The box reaches half of each size,
/// rounded down, to both sides.
pub fn create_box(width: i64, height: i64, depth: i64) -> (mesh: Mesh)
    requires
        0 <= width <= 2 * COORD_MAX,
        0 <= height <= 2 * COORD_MAX,
        0 <= depth <= 2 * COORD_MAX,
    ensures
        mesh.wf(),
        mesh.num_tris == 12,
        mesh.vertices@ == box_vertices(width as int / 2, height as int / 2, depth as int / 2),
        mesh.indices@ == box_indices(),
{
    let w: i64 = width / 2;
    let h: i64 = height / 2;
    let d: i64 = depth / 2;
    let mut vertices: Vec<Vertex> = Vec::new();
    let mut indices: Vec<u32> = Vec::new();
    // front
    push_quad(
        &mut vertices,
        &mut indices,
        Vector::vec3(0, 0, 1),
        Vector::vec3(-w, -h, d),
        Vector::vec3(w, -h, d),
        Vector::vec3(-w, h, d),
        Vector::vec3(w, h, d),
    );
    // back
    push_quad(
        &mut vertices,
        &mut indices,
        Vector::vec3(0, 0, -1),
        Vector::vec3(w, -h, -d),
        Vector::vec3(-w, -h, -d),
        Vector::vec3(w, h, -d),
        Vector::vec3(-w, h, -d),
    );
    // left
    push_quad(
        &mut vertices,
        &mut indices,
        Vector::vec3(-1, 0, 0),
        Vector::vec3(-w, -h, -d),
        Vector::vec3(-w, -h, d),
        Vector::vec3(-w, h, -d),
        Vector::vec3(-w, h, d),
    );
    // right
    push_quad(
        &mut vertices,
        &mut indices,
        Vector::vec3(1, 0, 0),
        Vector::vec3(w, -h, d),
        Vector::vec3(w, -h, -d),
        Vector::vec3(w, h, d),
        Vector::vec3(w, h, -d),
    );
    // top
    push_quad(
        &mut vertices,
        &mut indices,
        Vector::vec3(0, 1, 0),
        Vector::vec3(-w, h, d),
        Vector::vec3(w, h, d),
        Vector::vec3(-w, h, -d),
        Vector::vec3(w, h, -d),
    );
    // bottom
    push_quad(
        &mut vertices,
        &mut indices,
        Vector::vec3(0, -1, 0),
        Vector::vec3(-w, -h, -d),
        Vector::vec3(w, -h, -d),
        Vector::vec3(-w, -h, d),
        Vector::vec3(w, -h, d),
    );
    Mesh { vertices, indices, num_tris: 12 }
}

/// Of two fractions with positive scales one is not after the other, and
/// being not after carries over a fraction in between.
pub proof fn lemma_fractions_are_ordered(
    a: int,
    a_scale: int,
    b: int,
    b_scale: int,
    c: int,
    c_scale: int,
)
    by (nonlinear_arith)
    requires
        a_scale > 0,
        b_scale > 0,
        c_scale > 0,
    ensures
        a * b_scale <= b * a_scale || b * a_scale <= a * b_scale,
        a * b_scale <= b * a_scale && b * c_scale <= c * b_scale ==> a * c_scale <= c * a_scale,
{
}

/// Products with a difference, taken apart.
proof fn lemma_slab_algebra(bound: int, origin: int, scale: int, t: int, speed: int)
    by (nonlinear_arith)
    ensures
        (bound - origin) * scale == bound * scale - origin * scale,
        (origin - bound) * scale == origin * scale - bound * scale,
        t * (-speed) == -(t * speed),
{
}

impl BoundingBox {
    /// Whether the ray enters the slab of axis `a` no earlier than that of
    /// axis `b`. Axes along which the ray does not move enter nowhere.
    pub open spec fn enters_last(self, origin: Vector, direction: Vector, a: int, b: int) -> bool {
        direction.component(b) != 0 ==> self.entry(origin, direction, b) * magnitude(
            direction.component(a),
        ) <= self.entry(origin, direction, a) * magnitude(direction.component(b))
    }

    /// Among the axes along which the ray moves there is one whose slab the
    /// ray enters last.
    proof fn lemma_last_entry(self, origin: Vector, direction: Vector) -> (a: int)
        requires
            direction.component(0) != 0 || direction.component(1) != 0 || direction.component(2)
                != 0,
        ensures
            0 <= a < 3,
            direction.component(a) != 0,
            self.enters_last(origin, direction, a, 0),
            self.enters_last(origin, direction, a, 1),
            self.enters_last(origin, direction, a, 2),
    {
        let n0 = self.entry(origin, direction, 0);
        let n1 = self.entry(origin, direction, 1);
        let n2 = self.entry(origin, direction, 2);
        let d0 = magnitude(direction.component(0));
        let d1 = magnitude(direction.component(1));
        let d2 = magnitude(direction.component(2));
        if d0 != 0 && d1 != 0 && d2 != 0 {
            lemma_fractions_are_ordered(n0, d0, n1, d1, n2, d2);
            lemma_fractions_are_ordered(n1, d1, n0, d0, n2, d2);
            if n1 * d0 <= n0 * d1 && n2 * d0 <= n0 * d2 {
                0
            } else if n0 * d1 <= n1 * d0 && n2 * d1 <= n1 * d2 {
                1
            } else {
                2
            }
        } else if d0 != 0 && d1 != 0 {
            if n1 * d0 <= n0 * d1 { 0 } else { 1 }
        } else if d0 != 0 && d2 != 0 {
            if n2 * d0 <= n0 * d2 { 0 } else { 2 }
        } else if d1 != 0 && d2 != 0 {
            if n2 * d1 <= n1 * d2 { 1 } else { 2 }
        } else if d0 != 0 {
            0
        } else if d1 != 0 {
            1
        } else {
            2
        }
    }

    /// The slab test reports nothing that is not there: when it reports a
    /// hit on a box that holds a point, some point of the line through
    /// `origin` along `direction` lies in the box. The result is the
    /// parameter of such a point, as a fraction.
    pub proof fn lemma_met_box_holds_a_point(self, origin: Vector, direction: Vector) -> (t: (
        int,
        int,
    ))
        requires
            self.inhabited(),
            self.meets(origin, direction),
        ensures
            t.1 > 0,
            self.holds_ray_point(origin, direction, t.0, t.1),
    {
        if direction.component(0) == 0 && direction.component(1) == 0 && direction.component(2)
            == 0 {
            (0, 1)
        } else {
            let a = self.lemma_last_entry(origin, direction);
            let t = self.entry(origin, direction, a);
            let scale = magnitude(direction.component(a));
            assert forall|axis: int| 0 <= axis < 3 implies self.lower.component(axis) * scale
                <= #[trigger] origin.component(axis) * scale + t * direction.component(axis)
                <= self.upper.component(axis) * scale by {
                let lo = self.lower.component(axis);
                let hi = self.upper.component(axis);
                let o = origin.component(axis);
                let d = direction.component(axis);
                lemma_slab_algebra(lo, o, scale, t, d);
                lemma_slab_algebra(hi, o, scale, t, d);
                if d == 0 {
                    assert(lo * scale <= o * scale <= hi * scale) by (nonlinear_arith)
                        requires
                            lo <= o <= hi,
                            scale > 0,
                    ;
                    assert(t * d == 0) by (nonlinear_arith)
                        requires
                            d == 0,
                    ;
                } else {
                    let enter = self.entry(origin, direction, axis);
                    let leave = self.exit(origin, direction, axis);
                    let speed = magnitude(d);
                    // By then the ray has entered this slab, as it enters
                    // none later, and it has not left it yet.
                    assert(t * speed <= leave * scale) by {
                        if axis == a {
                            assert(enter * scale <= leave * scale) by (nonlinear_arith)
                                requires
                                    enter <= leave,
                                    scale > 0,
                            ;
                        }
                    }
                }
            }
            (t, scale)
        }
    }
}

/// The most vertices a grid may have.
pub const GRID_MAX: u32 = 0x1000_0000;

/// The coordinate of grid line `line` of `lines` across a side of length
/// `size` that is centred on the origin. The first line lies half the
/// size, rounded down, below the origin, the last one the whole size
/// above the first.
pub open spec fn grid_coordinate(size: int, lines: int, line: int) -> int {
    (line * size) / (lines - 1) - size / 2
}

/// The place of vertex number `k` of a grid that is `sub_div_width`
/// vertices wide: rows run along x, from the far side of the plane to the
/// near one.
pub open spec fn grid_vertex(
    width: int,
    depth: int,
    sub_div_width: int,
    sub_div_depth: int,
    k: int,
) -> Vertex {
    Vertex {
        pos: Vector {
            x: grid_coordinate(width, sub_div_width, k % sub_div_width) as i64,
            y: 0,
            z: (-grid_coordinate(depth, sub_div_depth, k / sub_div_width)) as i64,
            w: 0,
        },
        normal: Vector { x: 0, y: 1, z: 0, w: 0 },
    }
}

/// Index number `k` of the index list of a grid that is `sub_div_width`
/// vertices wide. Six indices make up one cell, cells run row by row; the
/// two triangles of a cell are its first corner, the next one of the row
/// and the one below the first, then the one below, the next of the row and
/// the one below that.
pub open spec fn grid_index(sub_div_width: int, k: int) -> int {
    let cell = k / 6;
    let row = cell / (sub_div_width - 1);
    let column = cell % (sub_div_width - 1);
    let here = row * sub_div_width + column;
    let below = here + sub_div_width;
    let corner = k % 6;
    if corner == 0 {
        here
    } else if corner == 1 || corner == 4 {
        here + 1
    } else if corner == 2 || corner == 3 {
        below
    } else {
        below + 1
    }
}

/// A grid line lies on the side it divides.
pub proof fn lemma_grid_coordinate(size: int, lines: int, line: int)
    by (nonlinear_arith)
    requires
        0 <= size <= 2 * COORD_MAX,
        2 <= lines <= GRID_MAX,
        0 <= line < lines,
    ensures
        0 <= line * size <= GRID_MAX * (2 * COORD_MAX),
        -COORD_MAX <= grid_coordinate(size, lines, line) <= COORD_MAX,
{
}

/// A place in a row of a grid, counted through all rows, lies in the grid.
pub proof fn lemma_grid_place(row: int, column: int, rows: int, columns: int)
    by (nonlinear_arith)
    requires
        0 <= row < rows,
        0 <= column < columns,
    ensures
        0 <= row * columns + column < rows * columns,
        row * columns + column + columns == (row + 1) * columns + column,
{
}

/// A flat grid in the plane y = 0, facing up, `width` by `depth` around
/// the origin, with `sub_div_width` vertices along x and `sub_div_depth`
/// along z, and two triangles in every cell.
pub fn create_plane(width: i64, depth: i64, sub_div_width: u32, sub_div_depth: u32) -> (mesh: Mesh)
    requires
        0 <= width <= 2 * COORD_MAX,
        0 <= depth <= 2 * COORD_MAX,
        2 <= sub_div_width,
        2 <= sub_div_depth,
        sub_div_width * sub_div_depth <= GRID_MAX,
    ensures
        mesh.wf(),
        mesh.num_tris == (sub_div_width - 1) * (sub_div_depth - 1) * 2,
        mesh.vertices@.len() == sub_div_width * sub_div_depth,
        forall|k: int|
            0 <= k < mesh.vertices@.len() ==> #[trigger] mesh.vertices@[k] == grid_vertex(
                width as int,
                depth as int,
                sub_div_width as int,
                sub_div_depth as int,
                k,
            ),
        forall|k: int|
            0 <= k < mesh.indices@.len() ==> (#[trigger] mesh.indices@[k]) == grid_index(
                sub_div_width as int,
                k,
            ),
{
    let mut vertices: Vec<Vertex> = Vec::new();
    let mut indices: Vec<u32> = Vec::new();
    let half_width: i64 = width / 2;
    let half_depth: i64 = depth / 2;
    proof {
        lemma_grid_place(0, 0, sub_div_depth as int, sub_div_width as int);
        assert(sub_div_width <= GRID_MAX && sub_div_depth <= GRID_MAX) by (nonlinear_arith)
            requires
                2 <= sub_div_width,
                2 <= sub_div_depth,
                sub_div_width * sub_div_depth <= GRID_MAX,
        ;
    }

    let mut i: u32 = 0;
    while i < sub_div_depth
        invariant
            i <= sub_div_depth,
            0 <= width <= 2 * COORD_MAX,
            0 <= depth <= 2 * COORD_MAX,
            2 <= sub_div_width <= GRID_MAX,
            2 <= sub_div_depth <= GRID_MAX,
            sub_div_width * sub_div_depth <= GRID_MAX,
            half_width == width / 2,
            half_depth == depth / 2,
            vertices@.len() == i * sub_div_width,
            forall|k: int|
                0 <= k < vertices@.len() ==> #[trigger] vertices@[k] == grid_vertex(
                    width as int,
                    depth as int,
                    sub_div_width as int,
                    sub_div_depth as int,
                    k,
                ) && vertices@[k].pos.in_range(),
        decreases sub_div_depth - i,
    {
        proof {
            lemma_grid_coordinate(depth as int, sub_div_depth as int, i as int);
        }
        let z: i64 = half_depth - ((i as i64) * depth) / ((sub_div_depth - 1) as i64);
        let mut j: u32 = 0;
        while j < sub_div_width
            invariant
                i < sub_div_depth,
                j <= sub_div_width,
                0 <= width <= 2 * COORD_MAX,
                0 <= depth <= 2 * COORD_MAX,
                2 <= sub_div_width <= GRID_MAX,
                2 <= sub_div_depth <= GRID_MAX,
                sub_div_width * sub_div_depth <= GRID_MAX,
                half_width == width / 2,
                z == -grid_coordinate(depth as int, sub_div_depth as int, i as int),
                -COORD_MAX <= z <= COORD_MAX,
                vertices@.len() == i * sub_div_width + j,
                forall|k: int|
                    0 <= k < vertices@.len() ==> #[trigger] vertices@[k] == grid_vertex(
                        width as int,
                        depth as int,
                        sub_div_width as int,
                        sub_div_depth as int,
                        k,
                    ) && vertices@[k].pos.in_range(),
            decreases sub_div_width - j,
        {
            proof {
                lemma_grid_coordinate(width as int, sub_div_width as int, j as int);
                lemma_fundamental_div_mod_converse(
                    i * sub_div_width + j,
                    sub_div_width as int,
                    i as int,
                    j as int,
                );
            }
            let x: i64 = ((j as i64) * width) / ((sub_div_width - 1) as i64) - half_width;
            vertices.push(Vertex::new(Vector::vec3(x, 0, z), Vector::vec3(0, 1, 0)));
            j += 1;
        }
        proof {
            lemma_grid_place(i as int, 0, sub_div_depth as int, sub_div_width as int);
        }
        i += 1;
    }

    let cells_wide: u32 = sub_div_width - 1;
    let cells_deep: u32 = sub_div_depth - 1;
    proof {
        lemma_grid_place(0, 0, cells_deep as int, cells_wide as int);
        assert(cells_wide * cells_deep <= sub_div_width * sub_div_depth) by (nonlinear_arith)
            requires
                cells_wide == sub_div_width - 1,
                cells_deep == sub_div_depth - 1,
                2 <= sub_div_width,
                2 <= sub_div_depth,
        ;
    }
    let mut row: u32 = 0;
    while row < cells_deep
        invariant
            row <= cells_deep,
            cells_wide == sub_div_width - 1,
            cells_deep == sub_div_depth - 1,
            2 <= sub_div_width <= GRID_MAX,
            2 <= sub_div_depth <= GRID_MAX,
            sub_div_width * sub_div_depth <= GRID_MAX,
            cells_wide * cells_deep <= GRID_MAX,
            indices@.len() == 6 * (row * cells_wide),
            forall|k: int|
                0 <= k < indices@.len() ==> (#[trigger] indices@[k]) < sub_div_width
                    * sub_div_depth && indices@[k] == grid_index(sub_div_width as int, k),
        decreases cells_deep - row,
    {
        let mut column: u32 = 0;
        while column < cells_wide
            invariant
                row < cells_deep,
                column <= cells_wide,
                cells_wide == sub_div_width - 1,
                cells_deep == sub_div_depth - 1,
                2 <= sub_div_width <= GRID_MAX,
                2 <= sub_div_depth <= GRID_MAX,
                sub_div_width * sub_div_depth <= GRID_MAX,
                cells_wide * cells_deep <= GRID_MAX,
                indices@.len() == 6 * (row * cells_wide + column),
                forall|k: int|
                    0 <= k < indices@.len() ==> (#[trigger] indices@[k]) < sub_div_width
                        * sub_div_depth && indices@[k] == grid_index(sub_div_width as int, k),
            decreases cells_wide - column,
        {
            proof {
                lemma_grid_place(
                    row as int,
                    column as int,
                    sub_div_depth as int,
                    sub_div_width as int,
                );
                lemma_grid_place(
                    row + 1,
                    column + 1,
                    sub_div_depth as int,
                    sub_div_width as int,
                );
            }
            let here: u32 = row * sub_div_width + column;
            let below: u32 = here + sub_div_width;
            proof {
                lemma_fundamental_div_mod_converse(
                    row * cells_wide + column,
                    cells_wide as int,
                    row as int,
                    column as int,
                );
            }
            indices.push(here);
            indices.push(here + 1);
            indices.push(below);
            indices.push(below);
            indices.push(here + 1);
            indices.push(below + 1);
            column += 1;
        }
        proof {
            lemma_grid_place(row as int, 0, cells_deep as int, cells_wide as int);
        }
        row += 1;
    }
    Mesh { vertices, indices, num_tris: cells_wide * cells_deep * 2 }
}

} // verus!
