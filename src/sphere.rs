use vstd::prelude::*;

use crate::ray::Ray;
use crate::vec::{v3, v3_dot, v3_len_sq, v3_sub, V3, Vec3};

verus! {

/// Coordinates of scene points have magnitude below this bound.
pub const SCENE_LIMIT: i64 = 0x8000;

/// Hits closer than `1 / CLEARANCE_INV` lattice units along a ray are ignored.
pub const CLEARANCE_INV: i128 = 10;

/// Which root of the ray/sphere quadratic a hit lies at.
#[derive(Clone, Copy, Debug, PartialEq, Eq, Structural)]
pub enum Side {
    /// The smaller root: the ray enters the sphere there.
    Near,
    /// The larger root: the ray starts inside (or on) the sphere and leaves it there.
    Far,
}

/// An exact description of a hit.
///
/// The hit lies at distance `t = (-b - sqrt(q)) / sqrt(a)` along the ray's unit
/// direction for `Side::Near`, and `t = (-b + sqrt(q)) / sqrt(a)` for `Side::Far`.
#[derive(Clone, Copy, Debug, PartialEq, Eq, Structural)]
pub struct Crossing {
    pub side: Side,
    pub a: i128,
    pub b: i128,
    pub q: i128,
}

/// A sphere with a colour given per channel in thousandths (1000 is full intensity).
#[derive(Clone, Copy, Debug)]
pub struct Sphere {
    pub center: Vec3,
    pub radius: i64,
    pub colour: Vec3,
}

/// The inputs for which intersection is computed exactly without overflow.
pub open spec fn in_scene(ray: Ray, s: Sphere) -> bool {
    &&& ray.wf()
    &&& ray.origin.bounded(SCENE_LIMIT as int)
    &&& ray.direction.bounded(2 * SCENE_LIMIT)
    &&& s.center.bounded(SCENE_LIMIT as int)
    &&& -SCENE_LIMIT < s.radius < SCENE_LIMIT
}

// With `u` the unit direction and `oc = origin - center`, the points of the ray
// at distance `t` lie on the sphere when `t^2 + 2 (u . oc) t + |oc|^2 - r^2 = 0`.
// Scaling by the direction's squared length gives integer coefficients:
// `u . oc = quad_b / sqrt(quad_a)`, and the discriminant has the sign of `quad_q`.

pub open spec fn quad_a(ray: Ray) -> int {
    v3_len_sq(ray.direction@)
}

pub open spec fn quad_b(ray: Ray, s: Sphere) -> int {
    v3_dot(ray.direction@, v3_sub(ray.origin@, s.center@))
}

pub open spec fn quad_c(ray: Ray, s: Sphere) -> int {
    v3_len_sq(v3_sub(ray.origin@, s.center@)) - s.radius * s.radius
}

pub open spec fn quad_q(ray: Ray, s: Sphere) -> int {
    quad_b(ray, s) * quad_b(ray, s) - quad_a(ray) * quad_c(ray, s)
}

/// `x * sqrt(a) + y >= 0`, for `a > 0`.
pub open spec fn surd_nonneg(x: int, y: int, a: int) -> bool {
    ||| x >= 0 && y >= 0
    ||| x >= 0 && y < 0 && x * x * a >= y * y
    ||| x < 0 && y >= 0 && y * y >= x * x * a
}

/// `x * sqrt(a) + y > 0`, for `a > 0`.
pub open spec fn surd_pos(x: int, y: int, a: int) -> bool {
    ||| x > 0 && y >= 0
    ||| x >= 0 && y > 0
    ||| x > 0 && y < 0 && x * x * a > y * y
    ||| x < 0 && y > 0 && y * y > x * x * a
}

/// The quadratic at the clearance distance `e = 1 / CLEARANCE_INV`, scaled by
/// the positive factor `CLEARANCE_INV^2 * sqrt(a)`, is `x * sqrt(a) + y` with
/// `x` and `y` as below.
pub open spec fn clear_x(ray: Ray, s: Sphere) -> int {
    CLEARANCE_INV * CLEARANCE_INV * quad_c(ray, s) + 1
}

pub open spec fn clear_y(ray: Ray, s: Sphere) -> int {
    2 * CLEARANCE_INV * quad_b(ray, s)
}

/// The clearance distance lies at or before the quadratic's vertex `-b / sqrt(a)`.
pub open spec fn clear_before_vertex(ray: Ray, s: Sphere) -> bool {
    quad_b(ray, s) < 0 && CLEARANCE_INV * CLEARANCE_INV * quad_b(ray, s) * quad_b(ray, s)
        >= quad_a(ray)
}

/// The smaller root is at least the clearance distance: the quadratic is
/// non-negative there and the clearance lies before the vertex.
pub open spec fn near_root_clear(ray: Ray, s: Sphere) -> bool {
    surd_nonneg(clear_x(ray, s), clear_y(ray, s), quad_a(ray)) && clear_before_vertex(ray, s)
}

/// The larger root is at least the clearance distance: it is not the case
/// that the quadratic is positive at the clearance and the clearance lies past
/// the vertex.
pub open spec fn far_root_clear(ray: Ray, s: Sphere) -> bool {
    !(surd_pos(clear_x(ray, s), clear_y(ray, s), quad_a(ray)) && !clear_before_vertex(ray, s))
}

pub open spec fn crossing_of(ray: Ray, s: Sphere, side: Side) -> Crossing {
    Crossing {
        side,
        a: quad_a(ray) as i128,
        b: quad_b(ray, s) as i128,
        q: quad_q(ray, s) as i128,
    }
}

/// The nearest hit at or beyond the clearance distance, if any. A ray that
/// only touches the sphere (zero discriminant) does not hit it.
pub open spec fn hit(ray: Ray, s: Sphere) -> Option<Crossing> {
    if quad_q(ray, s) <= 0 {
        None
    } else if near_root_clear(ray, s) {
        Some(crossing_of(ray, s, Side::Near))
    } else if far_root_clear(ray, s) {
        Some(crossing_of(ray, s, Side::Far))
    } else {
        None
    }
}

/// Bounds on the magnitudes met while deciding a hit.
const COEF_BOUND: i128 = 0x4_0000_0000;

const SURD_X_BOUND: i128 = 0x200_0000_0000;

const SURD_Y_BOUND: i128 = 0x100_0000_0000;

proof fn lemma_dot_bound(u: Vec3, v: Vec3)
    requires
        u.bounded(2 * SCENE_LIMIT),
        v.bounded(2 * SCENE_LIMIT),
    ensures
        -3 * 0x1_0000_0000 <= v3_dot(u@, v@) <= 3 * 0x1_0000_0000,
{
    let k: int = 0x1_0000;
    assert(-k * k <= u.x * v.x <= k * k) by (nonlinear_arith)
        requires -k < u.x < k, -k < v.x < k;
    assert(-k * k <= u.y * v.y <= k * k) by (nonlinear_arith)
        requires -k < u.y < k, -k < v.y < k;
    assert(-k * k <= u.z * v.z <= k * k) by (nonlinear_arith)
        requires -k < u.z < k, -k < v.z < k;
}

fn surd_nonneg_exec(x: i128, y: i128, a: i128) -> (r: bool)
    requires
        -SURD_X_BOUND <= x <= SURD_X_BOUND,
        -SURD_Y_BOUND <= y <= SURD_Y_BOUND,
        0 < a <= COEF_BOUND,
    ensures
        r == surd_nonneg(x as int, y as int, a as int),
{
    proof {
        lemma_surd_terms(x as int, y as int, a as int);
    }
    if x >= 0 && y >= 0 {
        true
    } else if x >= 0 && y < 0 {
        x * x * a >= y * y
    } else if x < 0 && y >= 0 {
        y * y >= x * x * a
    } else {
        false
    }
}

fn surd_pos_exec(x: i128, y: i128, a: i128) -> (r: bool)
    requires
        -SURD_X_BOUND <= x <= SURD_X_BOUND,
        -SURD_Y_BOUND <= y <= SURD_Y_BOUND,
        0 < a <= COEF_BOUND,
    ensures
        r == surd_pos(x as int, y as int, a as int),
{
    proof {
        lemma_surd_terms(x as int, y as int, a as int);
    }
    if (x > 0 && y >= 0) || (x >= 0 && y > 0) {
        true
    } else if x > 0 && y < 0 {
        x * x * a > y * y
    } else if x < 0 && y > 0 {
        y * y > x * x * a
    } else {
        false
    }
}

proof fn lemma_surd_terms(x: int, y: int, a: int)
    requires
        -SURD_X_BOUND <= x <= SURD_X_BOUND,
        -SURD_Y_BOUND <= y <= SURD_Y_BOUND,
        0 < a <= COEF_BOUND,
    ensures
        0 <= x * x <= 0x4_0000_0000_0000_0000_0000,
        0 <= x * x * a <= 0x10_0000_0000_0000_0000_0000_0000_0000,
        0 <= y * y <= 0x1_0000_0000_0000_0000_0000,
{
    let bx: int = SURD_X_BOUND as int;
    let by: int = SURD_Y_BOUND as int;
    let ba: int = COEF_BOUND as int;
    assert(0 <= x * x <= bx * bx) by (nonlinear_arith)
        requires -bx <= x <= bx;
    assert(0 <= y * y <= by * by) by (nonlinear_arith)
        requires -by <= y <= by;
    assert(0 <= x * x * a <= bx * bx * ba) by (nonlinear_arith)
        requires 0 <= x * x <= bx * bx, 0 < a <= ba;
}

impl Sphere {
    pub fn from(center: Vec3, radius: i64, colour: Vec3) -> (r: Sphere)
        ensures
            r.center == center,
            r.radius == radius,
            r.colour == colour,
    {
        Sphere { center, radius, colour }
    }

    /// Exact ray/sphere intersection: the nearer root that lies at least the
    /// clearance distance along the ray, else the farther one, else none.
    pub fn intersect(&self, ray: &Ray) -> (r: Option<Crossing>)
        requires
            in_scene(*ray, *self),
        ensures
            r == hit(*ray, *self),
    {
        let oc = Vec3::minus(&ray.origin, &self.center);
        let a = Vec3::dot(&ray.direction, &ray.direction);
        let b = Vec3::dot(&ray.direction, &oc);
        let oc_sq = Vec3::dot(&oc, &oc);
        let rad = self.radius as i128;
        proof {
            lemma_dot_bound(ray.direction, ray.direction);
            lemma_dot_bound(ray.direction, oc);
            lemma_dot_bound(oc, oc);
            assert(0 <= rad * rad < 0x4000_0000) by (nonlinear_arith)
                requires -0x8000 < rad < 0x8000;
            assert(a > 0) by (nonlinear_arith)
                requires
                    a == ray.direction.x * ray.direction.x + ray.direction.y * ray.direction.y
                        + ray.direction.z * ray.direction.z,
                    !(ray.direction.x == 0 && ray.direction.y == 0 && ray.direction.z == 0);
            assert(oc_sq >= 0) by (nonlinear_arith)
                requires oc_sq == oc.x * oc.x + oc.y * oc.y + oc.z * oc.z;
        }
        let c = oc_sq - rad * rad;
        proof {
            let k: int = 3 * 0x1_0000_0000int;
            assert(0 <= b * b <= k * k) by (nonlinear_arith)
                requires -k <= b <= k;
            assert(-k * k <= a * c <= k * k) by (nonlinear_arith)
                requires 0 < a <= k, -k <= c <= k;
        }
        let q = b * b - a * c;
        if q <= 0 {
            return None;
        }
        assert(-0x4000_0000 < c <= 3 * 0x1_0000_0000);
        assert(CLEARANCE_INV * CLEARANCE_INV * c == 100 * c);
        let x = CLEARANCE_INV * CLEARANCE_INV * c + 1;
        assert(-3 * 0x1_0000_0000 <= b <= 3 * 0x1_0000_0000);
        assert(2 * CLEARANCE_INV * b == 20 * b);
        let y = 2 * CLEARANCE_INV * b;
        let before_vertex = b < 0 && CLEARANCE_INV * CLEARANCE_INV * (b * b) >= a;
        assert(CLEARANCE_INV * CLEARANCE_INV * (b * b) == CLEARANCE_INV * CLEARANCE_INV * b * b)
            by (nonlinear_arith);
        if before_vertex && surd_nonneg_exec(x, y, a) {
            Some(Crossing { side: Side::Near, a, b, q })
        } else if before_vertex || !surd_pos_exec(x, y, a) {
            Some(Crossing { side: Side::Far, a, b, q })
        } else {
            None
        }
    }
}

pub open spec fn v3_scale_neg(a: V3) -> V3 {
    v3(-a.x, -a.y, -a.z)
}

/// `quad_a` times the squared distance from the sphere's center to the ray's line.
pub open spec fn line_gap_scaled(ray: Ray, s: Sphere) -> int {
    quad_a(ray) * v3_len_sq(v3_sub(ray.origin@, s.center@)) - quad_b(ray, s) * quad_b(ray, s)
}

proof fn lemma_quad_a_pos(ray: Ray)
    requires
        ray.wf(),
    ensures
        quad_a(ray) > 0,
{
    let d = ray.direction;
    assert(d.x * d.x + d.y * d.y + d.z * d.z > 0) by (nonlinear_arith)
        requires !(d.x == 0 && d.y == 0 && d.z == 0);
}

proof fn lemma_q_from_gap(ray: Ray, s: Sphere)
    ensures
        quad_q(ray, s) == quad_a(ray) * (s.radius * s.radius) - line_gap_scaled(ray, s),
{
    let a = quad_a(ray);
    let o = v3_len_sq(v3_sub(ray.origin@, s.center@));
    let rr = s.radius * s.radius;
    assert(a * (o - rr) == a * o - a * rr) by (nonlinear_arith);
}

/// A ray whose line passes farther than the radius from the center misses the sphere.
pub proof fn lemma_distant_line_misses(ray: Ray, s: Sphere)
    requires
        in_scene(ray, s),
        line_gap_scaled(ray, s) > quad_a(ray) * (s.radius * s.radius),
    ensures
        hit(ray, s) == None::<Crossing>,
{
    lemma_q_from_gap(ray, s);
}

/// A ray whose line touches the sphere at exactly one point misses it.
pub proof fn lemma_tangent_misses(ray: Ray, s: Sphere)
    requires
        in_scene(ray, s),
        line_gap_scaled(ray, s) == quad_a(ray) * (s.radius * s.radius),
    ensures
        hit(ray, s) == None::<Crossing>,
{
    lemma_q_from_gap(ray, s);
}

/// A ray starting strictly inside the sphere never hits at the near root: it
/// hits at the far root whenever that root clears the minimum distance.
pub proof fn lemma_inside_hits_far_root(ray: Ray, s: Sphere)
    requires
        in_scene(ray, s),
        v3_len_sq(v3_sub(ray.origin@, s.center@)) < s.radius * s.radius,
    ensures
        quad_q(ray, s) > 0,
        hit(ray, s) == if far_root_clear(ray, s) {
            Some(crossing_of(ray, s, Side::Far))
        } else {
            None
        },
{
    lemma_quad_a_pos(ray);
    let a = quad_a(ray);
    let b = quad_b(ray, s);
    let c = quad_c(ray, s);
    assert(a * c < 0) by (nonlinear_arith)
        requires a > 0, c < 0;
    assert(b * b >= 0) by (nonlinear_arith);
    assert(clear_x(ray, s) == 100 * c + 1);
    assert(clear_y(ray, s) == 20 * b);
    assert(!near_root_clear(ray, s));
}

/// A ray aimed at the center from a point at distance `d` with
/// `d >= radius + 1 / CLEARANCE_INV` hits at the near root with `a = d^2`,
/// `b = -d^2` and `q = d^2 * radius^2`, that is at distance
/// `(d^2 - d * radius) / d = d - radius`.
pub proof fn lemma_aimed_at_center(ray: Ray, s: Sphere)
    requires
        in_scene(ray, s),
        ray.direction@ == v3_sub(s.center@, ray.origin@),
        s.radius > 0,
        (CLEARANCE_INV * s.radius + 1) * (CLEARANCE_INV * s.radius + 1) <= CLEARANCE_INV
            * CLEARANCE_INV * quad_a(ray),
    ensures
        hit(ray, s) == Some(crossing_of(ray, s, Side::Near)),
        quad_b(ray, s) == -quad_a(ray),
        quad_q(ray, s) == quad_a(ray) * (s.radius * s.radius),
{
    lemma_quad_a_pos(ray);
    let dd = quad_a(ray);
    let r = s.radius as int;
    let d = ray.direction@;
    let oc = v3_sub(ray.origin@, s.center@);
    assert(oc == v3_scale_neg(d));
    assert(quad_b(ray, s) == -dd) by (nonlinear_arith)
        requires
            oc.x == -d.x, oc.y == -d.y, oc.z == -d.z,
            quad_b(ray, s) == d.x * oc.x + d.y * oc.y + d.z * oc.z,
            dd == d.x * d.x + d.y * d.y + d.z * d.z;
    assert(v3_len_sq(oc) == dd) by (nonlinear_arith)
        requires
            oc.x == -d.x, oc.y == -d.y, oc.z == -d.z,
            v3_len_sq(oc) == oc.x * oc.x + oc.y * oc.y + oc.z * oc.z,
            dd == d.x * d.x + d.y * d.y + d.z * d.z;
    let c = dd - r * r;
    assert(quad_c(ray, s) == c);
    assert(quad_q(ray, s) == dd * (r * r)) by (nonlinear_arith)
        requires quad_q(ray, s) == (-dd) * (-dd) - dd * c, c == dd - r * r;
    assert(dd * (r * r) > 0) by (nonlinear_arith)
        requires dd > 0, r > 0;
    // Near root clearance, with w = 100 dd and p = 10 r.
    let w = 100 * dd;
    let p = 10 * r;
    assert((p + 1) * (p + 1) <= w);
    assert(100 * dd * dd >= dd) by (nonlinear_arith)
        requires dd > 0;
    let x = 100 * c + 1;
    let y = -20 * dd;
    assert(x == w - p * p + 1) by (nonlinear_arith)
        requires x == 100 * c + 1, c == dd - r * r, w == 100 * dd, p == 10 * r;
    assert(x * x - 4 * w == (w - (p - 1) * (p - 1)) * (w - (p + 1) * (p + 1))) by (nonlinear_arith)
        requires x == w - p * p + 1;
    assert((p - 1) * (p - 1) <= (p + 1) * (p + 1)) by (nonlinear_arith)
        requires p > 0;
    assert((w - (p - 1) * (p - 1)) * (w - (p + 1) * (p + 1)) >= 0) by (nonlinear_arith)
        requires w - (p - 1) * (p - 1) >= 0, w - (p + 1) * (p + 1) >= 0;
    assert(x > 0) by (nonlinear_arith)
        requires x == w - p * p + 1, (p + 1) * (p + 1) <= w, p > 0;
    assert(x * x * dd >= y * y) by (nonlinear_arith)
        requires x * x >= 4 * w, w == 100 * dd, y == -20 * dd, dd > 0;
    assert(clear_x(ray, s) == x);
    assert(clear_y(ray, s) == 20 * quad_b(ray, s));
    assert(clear_y(ray, s) == y);
    assert(CLEARANCE_INV * CLEARANCE_INV * quad_b(ray, s) * quad_b(ray, s) == 100 * dd * dd)
        by (nonlinear_arith)
        requires quad_b(ray, s) == -dd;
    assert(clear_before_vertex(ray, s));
    assert(surd_nonneg(x, y, dd));
    assert(near_root_clear(ray, s));
}

/// Which root a ray hits, if any.
pub open spec fn hit_side(ray: Ray, s: Sphere) -> Option<Side> {
    match hit(ray, s) {
        Some(c) => Some(c.side),
        None => None,
    }
}

proof fn lemma_pos_scale_order(k2: int, u: int, v: int)
    requires
        k2 > 0,
    ensures
        (k2 * u >= k2 * v) == (u >= v),
        (k2 * u > k2 * v) == (u > v),
{
    if u >= v {
        assert(k2 * u >= k2 * v) by (nonlinear_arith)
            requires k2 > 0, u >= v;
    } else {
        assert(k2 * u < k2 * v) by (nonlinear_arith)
            requires k2 > 0, u < v;
    }
    if u > v {
        assert(k2 * u > k2 * v) by (nonlinear_arith)
            requires k2 > 0, u > v;
    } else {
        assert(k2 * u <= k2 * v) by (nonlinear_arith)
            requires k2 > 0, u <= v;
    }
}

/// Only the direction's orientation matters: scaling it by a positive factor
/// leaves the hit (and which root it lies at) unchanged.
pub proof fn lemma_direction_scale_invariant(ray: Ray, scaled: Ray, s: Sphere, k: int)
    requires
        in_scene(ray, s),
        in_scene(scaled, s),
        k > 0,
        scaled.origin == ray.origin,
        scaled.direction@ == crate::vec::v3_scale(ray.direction@, k),
    ensures
        hit_side(scaled, s) == hit_side(ray, s),
{
    lemma_quad_a_pos(ray);
    let d = ray.direction@;
    let oc = v3_sub(ray.origin@, s.center@);
    let a = quad_a(ray);
    let b = quad_b(ray, s);
    let c = quad_c(ray, s);
    let k2 = k * k;
    assert(k2 > 0) by (nonlinear_arith)
        requires k > 0, k2 == k * k;
    let e = scaled.direction@;
    let (dx, dy, dz) = (d.x, d.y, d.z);
    let (ox, oy, oz) = (oc.x, oc.y, oc.z);
    assert(e.x == dx * k && e.y == dy * k && e.z == dz * k);
    assert(quad_a(scaled) == e.x * e.x + e.y * e.y + e.z * e.z);
    assert(quad_b(scaled, s) == e.x * ox + e.y * oy + e.z * oz);
    assert(a == dx * dx + dy * dy + dz * dz);
    assert(b == dx * ox + dy * oy + dz * oz);
    assert((dx * k) * (dx * k) == k2 * (dx * dx)) by (nonlinear_arith)
        requires k2 == k * k;
    assert((dy * k) * (dy * k) == k2 * (dy * dy)) by (nonlinear_arith)
        requires k2 == k * k;
    assert((dz * k) * (dz * k) == k2 * (dz * dz)) by (nonlinear_arith)
        requires k2 == k * k;
    let (px, py, pz) = (dx * dx, dy * dy, dz * dz);
    assert(k2 * px + k2 * py + k2 * pz == k2 * (px + py + pz)) by (nonlinear_arith);
    assert((dx * k) * ox + (dy * k) * oy + (dz * k) * oz == k * (dx * ox + dy * oy + dz * oz))
        by (nonlinear_arith);
    assert(quad_a(scaled) == k2 * a);
    assert(quad_b(scaled, s) == k * b);
    assert(quad_c(scaled, s) == c);
    let b2 = k * b;
    let a2 = k2 * a;
    assert(b2 * b2 - a2 * c == k2 * (b * b - a * c)) by (nonlinear_arith)
        requires b2 == k * b, a2 == k2 * a, k2 == k * k;
    lemma_pos_scale_order(k2, b * b - a * c, 0);
    let x = clear_x(ray, s);
    let y = clear_y(ray, s);
    assert(clear_x(scaled, s) == x);
    assert(clear_y(scaled, s) == k * y) by (nonlinear_arith)
        requires clear_y(scaled, s) == 2 * CLEARANCE_INV * b2, y == 2 * CLEARANCE_INV * b, b2 == k * b;
    let ky = k * y;
    assert(x * x * a2 == k2 * (x * x * a)) by (nonlinear_arith)
        requires a2 == k2 * a;
    assert(ky * ky == k2 * (y * y)) by (nonlinear_arith)
        requires ky == k * y, k2 == k * k;
    lemma_pos_scale_order(k2, x * x * a, y * y);
    lemma_pos_scale_order(k2, y * y, x * x * a);
    lemma_pos_scale_order(k, y, 0);
    lemma_pos_scale_order(k, 0, y);
    lemma_pos_scale_order(k, b, 0);
    lemma_pos_scale_order(k, 0, b);
    assert(100 * b2 * b2 == k2 * (100 * b * b)) by (nonlinear_arith)
        requires b2 == k * b, k2 == k * k;
    lemma_pos_scale_order(k2, 100 * b * b, a);
    assert(clear_before_vertex(scaled, s) == clear_before_vertex(ray, s));
    assert(surd_nonneg(x, ky, a2) == surd_nonneg(x, y, a));
    assert(surd_pos(x, ky, a2) == surd_pos(x, y, a));
}

} // verus!
