use vstd::prelude::*;

verus! {

/// Largest magnitude of a coordinate for which the algebra below is overflow-free.
pub const ALGEBRA_LIMIT: i64 = 0x1000_0000_0000_0000;

/// A vector of three integer lattice coordinates.
#[derive(Clone, Copy, Debug, PartialEq, Eq, Structural)]
pub struct Vec3 {
    pub x: i64,
    pub y: i64,
    pub z: i64,
}

/// Mathematical triple behind a `Vec3`.
pub struct V3 {
    pub x: int,
    pub y: int,
    pub z: int,
}

pub open spec fn v3(x: int, y: int, z: int) -> V3 {
    V3 { x, y, z }
}

pub open spec fn v3_add(a: V3, b: V3) -> V3 {
    v3(a.x + b.x, a.y + b.y, a.z + b.z)
}

pub open spec fn v3_scale(a: V3, s: int) -> V3 {
    v3(a.x * s, a.y * s, a.z * s)
}

pub open spec fn v3_sub(a: V3, b: V3) -> V3 {
    v3_add(a, v3_scale(b, -1))
}

pub open spec fn v3_dot(a: V3, b: V3) -> int {
    a.x * b.x + a.y * b.y + a.z * b.z
}

/// Squared Euclidean length.
pub open spec fn v3_len_sq(a: V3) -> int {
    v3_dot(a, a)
}

pub open spec fn fits_i64(n: int) -> bool {
    i64::MIN <= n <= i64::MAX
}

pub open spec fn v3_fits(a: V3) -> bool {
    fits_i64(a.x) && fits_i64(a.y) && fits_i64(a.z)
}

impl View for Vec3 {
    type V = V3;

    open spec fn view(&self) -> V3 {
        v3(self.x as int, self.y as int, self.z as int)
    }
}

impl Vec3 {
    /// Every coordinate has magnitude below `bound`.
    pub open spec fn bounded(&self, bound: int) -> bool {
        -bound < self.x < bound && -bound < self.y < bound && -bound < self.z < bound
    }

    pub open spec fn is_zero(&self) -> bool {
        self.x == 0 && self.y == 0 && self.z == 0
    }

    pub fn from(x: i64, y: i64, z: i64) -> (r: Vec3)
        ensures
            r@ == v3(x as int, y as int, z as int),
    {
        Vec3 { x, y, z }
    }

    /// Component-wise sum.
    pub fn plus(v1: &Vec3, v2: &Vec3) -> (r: Vec3)
        requires
            v3_fits(v3_add(v1@, v2@)),
        ensures
            r@ == v3_add(v1@, v2@),
    {
        Vec3::from(v1.x + v2.x, v1.y + v2.y, v1.z + v2.z)
    }

    /// Component-wise product with the scalar `s`.
    pub fn scale(&self, s: i64) -> (r: Vec3)
        requires
            v3_fits(v3_scale(self@, s as int)),
        ensures
            r@ == v3_scale(self@, s as int),
    {
        Vec3::from(self.x * s, self.y * s, self.z * s)
    }

    /// `v1 + (-1) * v2`.
    pub fn minus(v1: &Vec3, v2: &Vec3) -> (r: Vec3)
        requires
            v1.bounded(ALGEBRA_LIMIT as int),
            v2.bounded(ALGEBRA_LIMIT as int),
        ensures
            r@ == v3_sub(v1@, v2@),
            r.bounded(2 * ALGEBRA_LIMIT),
    {
        let neg = v2.scale(-1);
        Vec3::plus(v1, &neg)
    }

    /// Inner product, exact in 128-bit arithmetic.
    pub fn dot(v1: &Vec3, v2: &Vec3) -> (r: i128)
        requires
            v1.bounded(2 * ALGEBRA_LIMIT),
            v2.bounded(2 * ALGEBRA_LIMIT),
        ensures
            r as int == v3_dot(v1@, v2@),
    {
        let (x1, y1, z1) = (v1.x as i128, v1.y as i128, v1.z as i128);
        let (x2, y2, z2) = (v2.x as i128, v2.y as i128, v2.z as i128);
        let ghost b: int = 2 * ALGEBRA_LIMIT;
        assert(-b * b <= (x1 * x2) as int <= b * b) by (nonlinear_arith)
            requires -b < x1 < b, -b < x2 < b, b == 0x2000_0000_0000_0000int;
        assert(-b * b <= (y1 * y2) as int <= b * b) by (nonlinear_arith)
            requires -b < y1 < b, -b < y2 < b, b == 0x2000_0000_0000_0000int;
        assert(-b * b <= (z1 * z2) as int <= b * b) by (nonlinear_arith)
            requires -b < z1 < b, -b < z2 < b, b == 0x2000_0000_0000_0000int;
        x1 * x2 + y1 * y2 + z1 * z2
    }

    /// Squared length, `dot(v, v)`.
    pub fn norm_squared(&self) -> (r: i128)
        requires
            self.bounded(2 * ALGEBRA_LIMIT),
        ensures
            r as int == v3_len_sq(self@),
            r >= 0,
    {
        let r = Vec3::dot(self, self);
        assert(self.x * self.x >= 0 && self.y * self.y >= 0 && self.z * self.z >= 0) by (nonlinear_arith);
        r
    }
}

} // verus!
