use vstd::prelude::*;

verus! {

/// Largest magnitude a scene coordinate may have.
///
/// Scene geometry lives on an integer lattice: one unit is the smallest
/// length the scene distinguishes. The limit keeps every product formed by
/// the intersection and cost computations inside the machine integers.
pub const COORD_MAX: i64 = 262144;

/// Smallest scene coordinate, the mirror image of [`COORD_MAX`].
pub const COORD_MIN: i64 = -262144;

/// One of the three spatial axes.
#[derive(Clone, Copy, Debug, PartialEq, Eq, Structural)]
pub enum Axis {
    X,
    Y,
    Z,
}

/// A four component lattice vector, used for points and directions alike.
#[derive(Clone, Copy, Debug, PartialEq, Eq, Structural)]
pub struct Vector {
    pub x: i64,
    pub y: i64,
    pub z: i64,
    pub w: i64,
}

/// `lo <= value <= hi` limited the way the vector clamp does it: first
/// raised to `lo`, then lowered to `hi`.
pub open spec fn raised_then_lowered(value: int, lo: int, hi: int) -> int {
    let raised = if value < lo { lo } else { value };
    if raised > hi { hi } else { raised }
}

fn raise_then_lower(value: i64, lo: i64, hi: i64) -> (result: i64)
    ensures
        result == raised_then_lowered(value as int, lo as int, hi as int),
{
    let raised: i64 = if value < lo { lo } else { value };
    if raised > hi { hi } else { raised }
}

impl Vector {
    /// Whether the three spatial components are at most `bound` in magnitude.
    pub open spec fn fits(self, bound: int) -> bool {
        &&& -bound <= self.x <= bound
        &&& -bound <= self.y <= bound
        &&& -bound <= self.z <= bound
    }

    /// Whether the vector is a legal scene coordinate.
    pub open spec fn in_range(self) -> bool {
        self.fits(COORD_MAX as int)
    }

    /// The spatial component along axis number `axis` (0, 1 or 2).
    pub open spec fn component(self, axis: int) -> int {
        if axis == 0 {
            self.x as int
        } else if axis == 1 {
            self.y as int
        } else {
            self.z as int
        }
    }

    /// The scalar product of the spatial parts.
    pub open spec fn dot(self, other: Vector) -> int {
        self.x * other.x + self.y * other.y + self.z * other.z
    }

    /// Whether the vector is a legal scene coordinate.
    pub fn is_in_range(self) -> (legal: bool)
        ensures
            legal == self.in_range(),
    {
        COORD_MIN <= self.x && self.x <= COORD_MAX && COORD_MIN <= self.y && self.y <= COORD_MAX
            && COORD_MIN <= self.z && self.z <= COORD_MAX
    }

    pub fn vec2(x: i64, y: i64) -> (v: Self)
        ensures
            v == (Vector { x, y, z: 0, w: 0 }),
    {
        Vector { x, y, z: 0, w: 0 }
    }

    pub fn vec3(x: i64, y: i64, z: i64) -> (v: Self)
        ensures
            v == (Vector { x, y, z, w: 0 }),
    {
        Vector { x, y, z, w: 0 }
    }

    pub fn vec4(x: i64, y: i64, z: i64, w: i64) -> (v: Self)
        ensures
            v == (Vector { x, y, z, w }),
    {
        Vector { x, y, z, w }
    }

    pub fn x(self) -> (c: i64)
        ensures
            c == self.x,
    {
        self.x
    }

    pub fn y(self) -> (c: i64)
        ensures
            c == self.y,
    {
        self.y
    }

    pub fn z(self) -> (c: i64)
        ensures
            c == self.z,
    {
        self.z
    }

    pub fn w(self) -> (c: i64)
        ensures
            c == self.w,
    {
        self.w
    }

    pub fn get_by_axis(self, axis: Axis) -> (c: i64)
        ensures
            c == match axis {
                Axis::X => self.x,
                Axis::Y => self.y,
                Axis::Z => self.z,
            },
    {
        match axis {
            Axis::X => self.x,
            Axis::Y => self.y,
            Axis::Z => self.z,
        }
    }

    /// The component along axis number `axis`; any number above 1 reads z.
    pub fn get(self, axis: u8) -> (c: i64)
        ensures
            c == self.component(axis as int),
    {
        if axis == 0 {
            self.x
        } else if axis == 1 {
            self.y
        } else {
            self.z
        }
    }

    pub fn set_x(&mut self, x: i64)
        ensures
            *final(self) == (Vector { x, ..*old(self) }),
    {
        self.x = x;
    }

    pub fn set_y(&mut self, y: i64)
        ensures
            *final(self) == (Vector { y, ..*old(self) }),
    {
        self.y = y;
    }

    pub fn set_z(&mut self, z: i64)
        ensures
            *final(self) == (Vector { z, ..*old(self) }),
    {
        self.z = z;
    }

    pub fn set_w(&mut self, w: i64)
        ensures
            *final(self) == (Vector { w, ..*old(self) }),
    {
        self.w = w;
    }

    pub fn splat_x(self) -> (v: Self)
        ensures
            v == (Vector { x: self.x, y: self.x, z: self.x, w: self.x }),
    {
        Vector { x: self.x, y: self.x, z: self.x, w: self.x }
    }

    pub fn splat_y(self) -> (v: Self)
        ensures
            v == (Vector { x: self.y, y: self.y, z: self.y, w: self.y }),
    {
        Vector { x: self.y, y: self.y, z: self.y, w: self.y }
    }

    pub fn splat_z(self) -> (v: Self)
        ensures
            v == (Vector { x: self.z, y: self.z, z: self.z, w: self.z }),
    {
        Vector { x: self.z, y: self.z, z: self.z, w: self.z }
    }

    pub fn splat_w(self) -> (v: Self)
        ensures
            v == (Vector { x: self.w, y: self.w, z: self.w, w: self.w }),
    {
        Vector { x: self.w, y: self.w, z: self.w, w: self.w }
    }

    /// Limits every component to the matching components of `min` and `max`.
    pub fn clamp(self, min: Vector, max: Vector) -> (v: Self)
        ensures
            v.x == raised_then_lowered(self.x as int, min.x as int, max.x as int),
            v.y == raised_then_lowered(self.y as int, min.y as int, max.y as int),
            v.z == raised_then_lowered(self.z as int, min.z as int, max.z as int),
            v.w == raised_then_lowered(self.w as int, min.w as int, max.w as int),
    {
        Vector {
            x: raise_then_lower(self.x, min.x, max.x),
            y: raise_then_lower(self.y, min.y, max.y),
            z: raise_then_lower(self.z, min.z, max.z),
            w: raise_then_lower(self.w, min.w, max.w),
        }
    }

    /// The scalar product of the spatial parts of two scene coordinates.
    pub fn vec3_dot(self, other: Vector) -> (d: i64)
        requires
            self.in_range(),
            other.in_range(),
        ensures
            d == self.dot(other),
    {
        proof {
            lemma_product_bound(self.x as int, other.x as int, COORD_MAX as int, COORD_MAX as int);
            lemma_product_bound(self.y as int, other.y as int, COORD_MAX as int, COORD_MAX as int);
            lemma_product_bound(self.z as int, other.z as int, COORD_MAX as int, COORD_MAX as int);
        }
        self.x * other.x + self.y * other.y + self.z * other.z
    }

    /// The vector product of the spatial parts of two scene coordinates.
    pub fn vec3_cross(self, v2: Vector) -> (v: Self)
        requires
            self.in_range(),
            v2.in_range(),
        ensures
            v.x == self.y * v2.z - self.z * v2.y,
            v.y == self.z * v2.x - self.x * v2.z,
            v.z == self.x * v2.y - self.y * v2.x,
            v.w == 0,
    {
        proof {
            lemma_product_bound(self.y as int, v2.z as int, COORD_MAX as int, COORD_MAX as int);
            lemma_product_bound(self.z as int, v2.y as int, COORD_MAX as int, COORD_MAX as int);
            lemma_product_bound(self.z as int, v2.x as int, COORD_MAX as int, COORD_MAX as int);
            lemma_product_bound(self.x as int, v2.z as int, COORD_MAX as int, COORD_MAX as int);
            lemma_product_bound(self.x as int, v2.y as int, COORD_MAX as int, COORD_MAX as int);
            lemma_product_bound(self.y as int, v2.x as int, COORD_MAX as int, COORD_MAX as int);
        }
        Vector {
            x: self.y * v2.z - self.z * v2.y,
            y: self.z * v2.x - self.x * v2.z,
            z: self.x * v2.y - self.y * v2.x,
            w: 0,
        }
    }
}

/// A product is bounded by the product of the bounds of its factors.
pub proof fn lemma_product_bound(a: int, b: int, bound_a: int, bound_b: int)
    by (nonlinear_arith)
    requires
        -bound_a <= a <= bound_a,
        -bound_b <= b <= bound_b,
    ensures
        -(bound_a * bound_b) <= a * b <= bound_a * bound_b,
{
}

} // verus!
