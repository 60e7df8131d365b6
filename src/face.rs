use vstd::prelude::*;

use crate::aabb::{AABB, axis as axis_of};
use crate::geometry::{
    COORD_LIMIT, Point3, V3, Wide3, bounded, cross, lemma_cramer, lemma_mul_bound, max_i64, min_i64, cross3, diff, dot, dot3, sub3, widen,
};

verus! {

pub open spec fn min3(a: int, b: int, c: int) -> int {
    if a <= b && a <= c {
        a
    } else if b <= c {
        b
    } else {
        c
    }
}

pub open spec fn max3(a: int, b: int, c: int) -> int {
    if a >= b && a >= c {
        a
    } else if b >= c {
        b
    } else {
        c
    }
}

/// Cramer's rule for `o + t * d == a + u * (b - a) + v * (c - a)`: the common
/// determinant and the numerators of `u`, `v` and `t`, in that order.
pub open spec fn cramer(a: V3, b: V3, c: V3, o: V3, d: V3) -> (int, int, int, int) {
    let e1 = sub3(b, a);
    let e2 = sub3(c, a);
    let p = cross3(d, e2);
    let tv = sub3(o, a);
    let q = cross3(tv, e1);
    (dot3(e1, p), dot3(tv, p), dot3(d, q), dot3(e2, q))
}

/// The same four quantities with the signs chosen so that the denominator is
/// not negative.
pub open spec fn cramer_pos(a: V3, b: V3, c: V3, o: V3, d: V3) -> (int, int, int, int) {
    let k = cramer(a, b, c, o, d);
    if k.0 < 0 {
        (-k.0, -k.1, -k.2, -k.3)
    } else {
        k
    }
}

/// The place where a ray met a face: the ray parameter `t_num / denom` and the
/// point `(x, y, z) / denom`, with `denom` positive.
#[derive(Clone, Copy, Debug, PartialEq, Eq, Structural)]
pub struct RayHit {
    pub t_num: i128,
    pub denom: i128,
    pub x: i128,
    pub y: i128,
    pub z: i128,
}

/// The answer to a ray query.
#[derive(Clone, Copy, Debug, PartialEq, Eq, Structural)]
pub enum CollisionResult {
    Nothing,
    Collides(RayHit),
}

/// A static triangle with its bounding box.
#[derive(Clone, Copy, Debug, PartialEq, Eq, Structural)]
pub struct Face {
    pub vertex_a: Point3,
    pub vertex_b: Point3,
    pub vertex_c: Point3,
    pub aabb: AABB,
}

impl Face {
    /// The face with the given vertices and their bounding box.
    pub open spec fn spec_new(a: Point3, b: Point3, c: Point3) -> Face {
        Face {
            vertex_a: a,
            vertex_b: b,
            vertex_c: c,
            aabb: AABB {
                min: Point3 {
                    x: min3(a.x as int, b.x as int, c.x as int) as i64,
                    y: min3(a.y as int, b.y as int, c.y as int) as i64,
                    z: min3(a.z as int, b.z as int, c.z as int) as i64,
                },
                max: Point3 {
                    x: max3(a.x as int, b.x as int, c.x as int) as i64,
                    y: max3(a.y as int, b.y as int, c.y as int) as i64,
                    z: max3(a.z as int, b.z as int, c.z as int) as i64,
                },
            },
        }
    }

    /// The box is exactly the bounding box of the three vertices.
    pub open spec fn wf(&self) -> bool {
        let a = self.vertex_a@;
        let b = self.vertex_b@;
        let c = self.vertex_c@;
        &&& self.aabb.min@ == (min3(a.0, b.0, c.0), min3(a.1, b.1, c.1), min3(a.2, b.2, c.2))
        &&& self.aabb.max@ == (max3(a.0, b.0, c.0), max3(a.1, b.1, c.1), max3(a.2, b.2, c.2))
    }

    /// All three vertices lie in the coordinate range.
    pub open spec fn in_range(&self) -> bool {
        self.vertex_a.in_range() && self.vertex_b.in_range() && self.vertex_c.in_range()
    }

    pub open spec fn hit_params(&self, o: V3, d: V3) -> (int, int, int, int) {
        cramer_pos(self.vertex_a@, self.vertex_b@, self.vertex_c@, o, d)
    }

    /// The ray from `o` along `d` meets the triangle, edges included, at a
    /// parameter `t` with `0 < t <= max`: with `(det, u, v, t)` from Cramer's
    /// rule, `u` and `v` are not negative and `u + v <= det`. A ray parallel to
    /// the triangle's plane, or a degenerate triangle, is never met.
    pub open spec fn ray_hits(&self, o: V3, d: V3, max: int) -> bool {
        let k = self.hit_params(o, d);
        &&& k.0 != 0
        &&& 0 <= k.1 && k.1 <= k.0
        &&& 0 <= k.2 && k.1 + k.2 <= k.0
        &&& 0 < k.3 && k.3 <= max * k.0
    }

    /// `h` is the point where the ray from `o` along `d` meets this face's plane:
    /// `o + d * t`, with `t` from Cramer's rule.
    pub open spec fn is_hit(&self, h: RayHit, o: V3, d: V3) -> bool {
        let k = self.hit_params(o, d);
        &&& h.denom == k.0
        &&& h.t_num == k.3
        &&& h.x == o.0 * k.0 + d.0 * k.3
        &&& h.y == o.1 * k.0 + d.1 * k.3
        &&& h.z == o.2 * k.0 + d.2 * k.3
    }

    pub fn new(vertex_a: Point3, vertex_b: Point3, vertex_c: Point3) -> (r: Face)
        ensures
            r.vertex_a == vertex_a,
            r.vertex_b == vertex_b,
            r.vertex_c == vertex_c,
            r.wf(),
            r == Face::spec_new(vertex_a, vertex_b, vertex_c),
    {
        let min = Point3::new(
            min_i64(vertex_a.x, min_i64(vertex_b.x, vertex_c.x)),
            min_i64(vertex_a.y, min_i64(vertex_b.y, vertex_c.y)),
            min_i64(vertex_a.z, min_i64(vertex_b.z, vertex_c.z)),
        );
        let max = Point3::new(
            max_i64(vertex_a.x, max_i64(vertex_b.x, vertex_c.x)),
            max_i64(vertex_a.y, max_i64(vertex_b.y, vertex_c.y)),
            max_i64(vertex_a.z, max_i64(vertex_b.z, vertex_c.z)),
        );
        let aabb = AABB::new(min, max);
        Face { vertex_a, vertex_b, vertex_c, aabb }
    }

    /// Möller–Trumbore on exact integers: where the ray from `origin` along
    /// `direction` meets this triangle within `max_distance` lengths of
    /// `direction`, if it does. There is no backface culling: either winding is
    /// hit.
    pub fn test_ray(&self, origin: &Point3, direction: &Point3, max_distance: i64) -> (r:
        CollisionResult)
        requires
            self.in_range(),
            origin.in_range(),
            direction.in_range(),
            -COORD_LIMIT <= max_distance <= COORD_LIMIT,
        ensures
            match r {
                CollisionResult::Nothing => !self.ray_hits(origin@, direction@, max_distance as int),
                CollisionResult::Collides(h) => self.ray_hits(origin@, direction@, max_distance as int)
                    && self.is_hit(h, origin@, direction@) && 0 < h.denom <= det_bound() && 0 < h.t_num
                    <= t_bound(),
            },
    {
        let e1 = diff(&self.vertex_b, &self.vertex_a);
        let e2 = diff(&self.vertex_c, &self.vertex_a);
        let d = widen(direction);
        let p = cross(&d, &e2, Ghost(0x4_0000), Ghost(0x8_0000));
        let det = dot(&e1, &p, Ghost(0x8_0000), Ghost(0x40_0000_0000));
        if det == 0 {
            return CollisionResult::Nothing;
        }
        let tv = diff(origin, &self.vertex_a);
        let q = cross(&tv, &e1, Ghost(0x8_0000), Ghost(0x8_0000));
        let u = dot(&tv, &p, Ghost(0x8_0000), Ghost(0x40_0000_0000));
        let v = dot(&d, &q, Ghost(0x4_0000), Ghost(0x80_0000_0000));
        let t = dot(&e2, &q, Ghost(0x8_0000), Ghost(0x80_0000_0000));
        let (det, u, v, t) = if det < 0 {
            (-det, -u, -v, -t)
        } else {
            (det, u, v, t)
        };
        if u < 0 || u > det {
            return CollisionResult::Nothing;
        }
        if v < 0 || u + v > det {
            return CollisionResult::Nothing;
        }
        proof {
            lemma_wide_products(det as int, t as int, max_distance as int, origin@, direction@);
        }
        let md = max_distance as i128 * det;
        if t > 0 && t <= md {
            let x = origin.x as i128 * det + direction.x as i128 * t;
            let y = origin.y as i128 * det + direction.y as i128 * t;
            let z = origin.z as i128 * det + direction.z as i128 * t;
            return CollisionResult::Collides(RayHit { t_num: t, denom: det, x, y, z });
        }
        CollisionResult::Nothing
    }
}

/// Bound on the denominator and on the numerator of `u` and `v`.
pub open spec fn det_bound() -> int {
    3int * 0x8_0000 * 0x40_0000_0000
}

/// Bound on the numerator of `t`.
pub open spec fn t_bound() -> int {
    3int * 0x8_0000 * 0x80_0000_0000
}

proof fn lemma_wide_products(det: int, t: int, m: int, o: V3, d: V3)
    requires
        0 <= det <= det_bound(),
        -t_bound() <= t <= t_bound(),
        -COORD_LIMIT <= m <= COORD_LIMIT,
        bounded(o, COORD_LIMIT as int),
        bounded(d, COORD_LIMIT as int),
    ensures
        -0x1_0000_0000_0000_0000_0000_0000_0000 <= m * det <= 0x1_0000_0000_0000_0000_0000_0000_0000,
        -0x1_0000_0000_0000_0000_0000_0000_0000 <= o.0 * det <= 0x1_0000_0000_0000_0000_0000_0000_0000,
        -0x1_0000_0000_0000_0000_0000_0000_0000 <= o.1 * det <= 0x1_0000_0000_0000_0000_0000_0000_0000,
        -0x1_0000_0000_0000_0000_0000_0000_0000 <= o.2 * det <= 0x1_0000_0000_0000_0000_0000_0000_0000,
        -0x1_0000_0000_0000_0000_0000_0000_0000 <= d.0 * t <= 0x1_0000_0000_0000_0000_0000_0000_0000,
        -0x1_0000_0000_0000_0000_0000_0000_0000 <= d.1 * t <= 0x1_0000_0000_0000_0000_0000_0000_0000,
        -0x1_0000_0000_0000_0000_0000_0000_0000 <= d.2 * t <= 0x1_0000_0000_0000_0000_0000_0000_0000,
        -0x1_0000_0000_0000_0000_0000_0000_0000 <= o.0 * det + d.0 * t <= 0x1_0000_0000_0000_0000_0000_0000_0000,
        -0x1_0000_0000_0000_0000_0000_0000_0000 <= o.1 * det + d.1 * t <= 0x1_0000_0000_0000_0000_0000_0000_0000,
        -0x1_0000_0000_0000_0000_0000_0000_0000 <= o.2 * det + d.2 * t <= 0x1_0000_0000_0000_0000_0000_0000_0000,
{
    lemma_mul_bound(m, det, 0x4_0000, det_bound());
    lemma_mul_bound(o.0, det, 0x4_0000, det_bound());
    lemma_mul_bound(o.1, det, 0x4_0000, det_bound());
    lemma_mul_bound(o.2, det, 0x4_0000, det_bound());
    lemma_mul_bound(d.0, t, 0x4_0000, t_bound());
    lemma_mul_bound(d.1, t, 0x4_0000, t_bound());
    lemma_mul_bound(d.2, t, 0x4_0000, t_bound());
}

proof fn lemma_triple_zero(x0: int, x1: int, x2: int, y0: int, y1: int, y2: int)
    ensures
        x0 * (x1 * y2 - x2 * y1) + x1 * (x2 * y0 - x0 * y2) + x2 * (x0 * y1 - x1 * y0) == 0,
{
    assert(x0 * (x1 * y2 - x2 * y1) == x0 * x1 * y2 - x0 * x2 * y1) by (nonlinear_arith);
    assert(x1 * (x2 * y0 - x0 * y2) == x1 * x2 * y0 - x0 * x1 * y2) by (nonlinear_arith);
    assert(x2 * (x0 * y1 - x1 * y0) == x0 * x2 * y1 - x1 * x2 * y0) by (nonlinear_arith);
}

proof fn lemma_triple_zero2(x0: int, x1: int, x2: int, y0: int, y1: int, y2: int)
    ensures
        y0 * (x1 * y2 - x2 * y1) + y1 * (x2 * y0 - x0 * y2) + y2 * (x0 * y1 - x1 * y0) == 0,
{
    assert(y0 * (x1 * y2 - x2 * y1) == x1 * y0 * y2 - x2 * y0 * y1) by (nonlinear_arith);
    assert(y1 * (x2 * y0 - x0 * y2) == x2 * y0 * y1 - x0 * y1 * y2) by (nonlinear_arith);
    assert(y2 * (x0 * y1 - x1 * y0) == x0 * y1 * y2 - x1 * y0 * y2) by (nonlinear_arith);
}

proof fn lemma_triple_cyclic(x: V3, y: V3, z: V3)
    ensures
        dot3(x, cross3(y, z)) == dot3(y, cross3(z, x)),
{
    let (x0, x1, x2) = x;
    let (y0, y1, y2) = y;
    let (z0, z1, z2) = z;
    assert(x0 * (y1 * z2 - y2 * z1) == x0 * y1 * z2 - x0 * y2 * z1) by (nonlinear_arith);
    assert(x1 * (y2 * z0 - y0 * z2) == x1 * y2 * z0 - x1 * y0 * z2) by (nonlinear_arith);
    assert(x2 * (y0 * z1 - y1 * z0) == x2 * y0 * z1 - x2 * y1 * z0) by (nonlinear_arith);
    assert(y0 * (z1 * x2 - z2 * x1) == x2 * y0 * z1 - x1 * y0 * z2) by (nonlinear_arith);
    assert(y1 * (z2 * x0 - z0 * x2) == x0 * y1 * z2 - x2 * y1 * z0) by (nonlinear_arith);
    assert(y2 * (z0 * x1 - z1 * x0) == x1 * y2 * z0 - x0 * y2 * z1) by (nonlinear_arith);
}

proof fn lemma_triple_swap(x: V3, y: V3, z: V3)
    ensures
        dot3(x, cross3(y, z)) == -dot3(y, cross3(x, z)),
{
    let (x0, x1, x2) = x;
    let (y0, y1, y2) = y;
    let (z0, z1, z2) = z;
    assert(x0 * (y1 * z2 - y2 * z1) == x0 * y1 * z2 - x0 * y2 * z1) by (nonlinear_arith);
    assert(x1 * (y2 * z0 - y0 * z2) == x1 * y2 * z0 - x1 * y0 * z2) by (nonlinear_arith);
    assert(x2 * (y0 * z1 - y1 * z0) == x2 * y0 * z1 - x2 * y1 * z0) by (nonlinear_arith);
    assert(y0 * (x1 * z2 - x2 * z1) == x1 * y0 * z2 - x2 * y0 * z1) by (nonlinear_arith);
    assert(y1 * (x2 * z0 - x0 * z2) == x2 * y1 * z0 - x0 * y1 * z2) by (nonlinear_arith);
    assert(y2 * (x0 * z1 - x1 * z0) == x0 * y2 * z1 - x1 * y2 * z0) by (nonlinear_arith);
}

/// `cross3(x + y - 3 * t, y) == cross3(x, y) - 3 * cross3(t, y)` on one coordinate.
proof fn lemma_cross_comb(a1: int, a2: int, b1: int, b2: int, t1: int, t2: int, d1: int, d2: int)
    by (nonlinear_arith)
    requires
        d1 == a1 + b1 - 3 * t1,
        d2 == a2 + b2 - 3 * t2,
    ensures
        d1 * b2 - d2 * b1 == (a1 * b2 - a2 * b1) - 3 * (t1 * b2 - t2 * b1),
{
}

proof fn lemma_dot_comb(x: V3, c: V3, s: V3, p: V3)
    requires
        p == (c.0 - 3 * s.0, c.1 - 3 * s.1, c.2 - 3 * s.2),
    ensures
        dot3(x, p) == dot3(x, c) - 3 * dot3(x, s),
{
    let (x0, x1, x2) = x;
    let (c0, c1, c2) = c;
    let (s0, s1, s2) = s;
    assert(x0 * (c0 - 3 * s0) + x1 * (c1 - 3 * s1) + x2 * (c2 - 3 * s2) == (x0 * c0 + x1 * c1 + x2
        * c2) - 3 * (x0 * s0 + x1 * s1 + x2 * s2)) by (nonlinear_arith);
}

/// Three times the vector from `o` to the centroid of `f`: along it the
/// centroid lies at parameter 1/3.
pub open spec fn centroid_direction(f: Face, o: V3) -> V3 {
    let a = f.vertex_a@;
    let b = f.vertex_b@;
    let c = f.vertex_c@;
    (a.0 + b.0 + c.0 - 3 * o.0, a.1 + b.1 + c.1 - 3 * o.1, a.2 + b.2 + c.2 - 3 * o.2)
}

/// With `d = centroid_direction(f, o)` and `u = (o - a) . ((b - a) x (c - a))`,
/// Cramer's rule gives `det == 3 * u` and `u`, `v` and `t` all equal to `u`.
proof fn lemma_centroid_cramer(f: Face, o: V3)
    ensures
        ({
            let a = f.vertex_a@;
            let e1 = sub3(f.vertex_b@, a);
            let e2 = sub3(f.vertex_c@, a);
            let u = dot3(sub3(o, a), cross3(e1, e2));
            let k = cramer(a, f.vertex_b@, f.vertex_c@, o, centroid_direction(f, o));
            k == (3 * u, u, u, u)
        }),
{
    let a = f.vertex_a@;
    let e1 = sub3(f.vertex_b@, a);
    let e2 = sub3(f.vertex_c@, a);
    let tv = sub3(o, a);
    let d = centroid_direction(f, o);
    assert(d == (e1.0 + e2.0 - 3 * tv.0, e1.1 + e2.1 - 3 * tv.1, e1.2 + e2.2 - 3 * tv.2));
    let c = cross3(e1, e2);
    let s = cross3(tv, e2);
    let p = cross3(d, e2);
    lemma_cross_comb(e1.1, e1.2, e2.1, e2.2, tv.1, tv.2, d.1, d.2);
    lemma_cross_comb(e1.2, e1.0, e2.2, e2.0, tv.2, tv.0, d.2, d.0);
    lemma_cross_comb(e1.0, e1.1, e2.0, e2.1, tv.0, tv.1, d.0, d.1);
    assert(p == (c.0 - 3 * s.0, c.1 - 3 * s.1, c.2 - 3 * s.2));
    lemma_dot_comb(e1, c, s, p);
    lemma_dot_comb(tv, c, s, p);
    lemma_triple_zero(e1.0, e1.1, e1.2, e2.0, e2.1, e2.2);
    lemma_triple_zero(tv.0, tv.1, tv.2, e2.0, e2.1, e2.2);
    lemma_triple_swap(e1, tv, e2);
    let u = dot3(tv, c);
    assert(dot3(e1, p) == 3 * u);
    assert(dot3(tv, p) == u);
    let q = cross3(tv, e1);
    // v = d . q with d = e1 + e2 - 3 tv
    assert(dot3(d, q) == dot3(e1, q) + dot3(e2, q) - 3 * dot3(tv, q)) by {
        let (q0, q1, q2) = q;
        assert((e1.0 + e2.0 - 3 * tv.0) * q0 + (e1.1 + e2.1 - 3 * tv.1) * q1 + (e1.2 + e2.2 - 3
            * tv.2) * q2 == (e1.0 * q0 + e1.1 * q1 + e1.2 * q2) + (e2.0 * q0 + e2.1 * q1 + e2.2
            * q2) - 3 * (tv.0 * q0 + tv.1 * q1 + tv.2 * q2)) by (nonlinear_arith);
    }
    lemma_triple_zero2(tv.0, tv.1, tv.2, e1.0, e1.1, e1.2);
    lemma_triple_zero(tv.0, tv.1, tv.2, e1.0, e1.1, e1.2);
    lemma_triple_cyclic(e2, tv, e1);
    assert(dot3(d, q) == u);
    assert(dot3(e2, q) == u);
}

/// The point of the ray at the parameter from Cramer's rule is the point of the
/// triangle's plane with the barycentric weights from Cramer's rule:
/// `o * det + d * t == a * det + (b - a) * u + (c - a) * v` on each axis.
pub proof fn lemma_hit_point(f: Face, o: V3, d: V3)
    ensures
        ({
            let k = f.hit_params(o, d);
            let a = f.vertex_a@;
            let e1 = sub3(f.vertex_b@, a);
            let e2 = sub3(f.vertex_c@, a);
            &&& o.0 * k.0 + d.0 * k.3 == a.0 * k.0 + e1.0 * k.1 + e2.0 * k.2
            &&& o.1 * k.0 + d.1 * k.3 == a.1 * k.0 + e1.1 * k.1 + e2.1 * k.2
            &&& o.2 * k.0 + d.2 * k.3 == a.2 * k.0 + e1.2 * k.1 + e2.2 * k.2
        }),
{
    let a = f.vertex_a@;
    let e1 = sub3(f.vertex_b@, a);
    let e2 = sub3(f.vertex_c@, a);
    let tv = sub3(o, a);
    lemma_cramer(e1, e2, d, tv);
    let r = cramer(a, f.vertex_b@, f.vertex_c@, o, d);
    let k = f.hit_params(o, d);
    assert forall|i: int| 0 <= i < 3 implies #[trigger] axis_of(o, i) * k.0 + axis_of(d, i) * k.3
        == axis_of(a, i) * k.0 + axis_of(e1, i) * k.1 + axis_of(e2, i) * k.2 by {
        let oi = axis_of(o, i);
        let ai = axis_of(a, i);
        let di = axis_of(d, i);
        let xi = axis_of(e1, i);
        let yi = axis_of(e2, i);
        assert(r.0 * (oi - ai) + r.3 * di == r.1 * xi + r.2 * yi);
        let (r0, r1, r2, r3) = r;
        assert(oi * r0 + di * r3 == ai * r0 + xi * r1 + yi * r2) by (nonlinear_arith)
            requires
                r0 * (oi - ai) + r3 * di == r1 * xi + r2 * yi,
        ;
        if r0 < 0 {
            assert(k == (-r0, -r1, -r2, -r3));
            assert(oi * -r0 + di * -r3 == ai * -r0 + xi * -r1 + yi * -r2) by (nonlinear_arith)
                requires
                    oi * r0 + di * r3 == ai * r0 + xi * r1 + yi * r2,
            ;
        } else {
            assert(k == r);
        }
    }
    assert(axis_of(o, 0) * k.0 + axis_of(d, 0) * k.3 == axis_of(a, 0) * k.0 + axis_of(e1, 0) * k.1 + axis_of(e2, 0) * k.2);
    assert(axis_of(o, 1) * k.0 + axis_of(d, 1) * k.3 == axis_of(a, 1) * k.0 + axis_of(e1, 1) * k.1 + axis_of(e2, 1) * k.2);
    assert(axis_of(o, 2) * k.0 + axis_of(d, 2) * k.3 == axis_of(a, 2) * k.0 + axis_of(e1, 2) * k.1 + axis_of(e2, 2) * k.2);
}

/// Dotting `al * x + be * y == ga * z + de * g` (on each axis) with `p`.
proof fn lemma_dot_combination(x: V3, y: V3, z: V3, g: V3, p: V3, al: int, be: int, ga: int, de: int)
    requires
        al * x.0 + be * y.0 == ga * z.0 + de * g.0,
        al * x.1 + be * y.1 == ga * z.1 + de * g.1,
        al * x.2 + be * y.2 == ga * z.2 + de * g.2,
    ensures
        al * dot3(x, p) + be * dot3(y, p) == ga * dot3(z, p) + de * dot3(g, p),
{
    assert forall|i: int| 0 <= i < 3 implies al * (#[trigger] axis_of(x, i) * axis_of(p, i)) + be * (axis_of(y, i)
        * axis_of(p, i)) == ga * (axis_of(z, i) * axis_of(p, i)) + de * (axis_of(g, i) * axis_of(p, i)) by {
        let (xi, yi, zi, gi, pi) = (axis_of(x, i), axis_of(y, i), axis_of(z, i), axis_of(g, i), axis_of(p, i));
        assert(pi * (al * xi + be * yi) == al * (xi * pi) + be * (yi * pi)) by (nonlinear_arith);
        assert(pi * (ga * zi + de * gi) == ga * (zi * pi) + de * (gi * pi)) by (nonlinear_arith);
        assert(al * xi + be * yi == ga * zi + de * gi);
    }
    assert(axis_of(x, 0) * axis_of(p, 0) == x.0 * p.0);
    assert(axis_of(x, 1) * axis_of(p, 1) == x.1 * p.1);
    assert(axis_of(x, 2) * axis_of(p, 2) == x.2 * p.2);
    let (x0, x1, x2) = (x.0 * p.0, x.1 * p.1, x.2 * p.2);
    let (y0, y1, y2) = (y.0 * p.0, y.1 * p.1, y.2 * p.2);
    let (z0, z1, z2) = (z.0 * p.0, z.1 * p.1, z.2 * p.2);
    let (g0, g1, g2) = (g.0 * p.0, g.1 * p.1, g.2 * p.2);
    assert(al * (x0 + x1 + x2) == al * x0 + al * x1 + al * x2) by (nonlinear_arith);
    assert(be * (y0 + y1 + y2) == be * y0 + be * y1 + be * y2) by (nonlinear_arith);
    assert(ga * (z0 + z1 + z2) == ga * z0 + ga * z1 + ga * z2) by (nonlinear_arith);
    assert(de * (g0 + g1 + g2) == de * g0 + de * g1 + de * g2) by (nonlinear_arith);
}

/// With a nonzero determinant Cramer's solution is the only one: any `w`, `tt`,
/// `uu`, `vv` with `w * o + tt * d == w * a + uu * (b - a) + vv * (c - a)` on
/// each axis are Cramer's numerators scaled by `w / det`.
pub proof fn lemma_cramer_unique(f: Face, o: V3, d: V3, w: int, tt: int, uu: int, vv: int)
    requires
        ({
            let a = f.vertex_a@;
            let e1 = sub3(f.vertex_b@, a);
            let e2 = sub3(f.vertex_c@, a);
            &&& w * o.0 + tt * d.0 == w * a.0 + uu * e1.0 + vv * e2.0
            &&& w * o.1 + tt * d.1 == w * a.1 + uu * e1.1 + vv * e2.1
            &&& w * o.2 + tt * d.2 == w * a.2 + uu * e1.2 + vv * e2.2
        }),
    ensures
        ({
            let k = cramer(f.vertex_a@, f.vertex_b@, f.vertex_c@, o, d);
            &&& uu * k.0 == w * k.1
            &&& vv * k.0 == w * k.2
            &&& tt * k.0 == w * k.3
        }),
{
    let a = f.vertex_a@;
    let e1 = sub3(f.vertex_b@, a);
    let e2 = sub3(f.vertex_c@, a);
    let tv = sub3(o, a);
    assert(w * tv.0 + tt * d.0 == uu * e1.0 + vv * e2.0) by (nonlinear_arith)
        requires
            w * o.0 + tt * d.0 == w * a.0 + uu * e1.0 + vv * e2.0,
            tv.0 == o.0 - a.0,
    ;
    assert(w * tv.1 + tt * d.1 == uu * e1.1 + vv * e2.1) by (nonlinear_arith)
        requires
            w * o.1 + tt * d.1 == w * a.1 + uu * e1.1 + vv * e2.1,
            tv.1 == o.1 - a.1,
    ;
    assert(w * tv.2 + tt * d.2 == uu * e1.2 + vv * e2.2) by (nonlinear_arith)
        requires
            w * o.2 + tt * d.2 == w * a.2 + uu * e1.2 + vv * e2.2,
            tv.2 == o.2 - a.2,
    ;
    let p = cross3(d, e2);
    lemma_dot_combination(tv, d, e1, e2, p, w, tt, uu, vv);
    lemma_triple_zero(d.0, d.1, d.2, e2.0, e2.1, e2.2);
    lemma_triple_zero2(d.0, d.1, d.2, e2.0, e2.1, e2.2);
    let p2 = cross3(d, e1);
    lemma_dot_combination(tv, d, e1, e2, p2, w, tt, uu, vv);
    lemma_triple_zero(d.0, d.1, d.2, e1.0, e1.1, e1.2);
    lemma_triple_zero2(d.0, d.1, d.2, e1.0, e1.1, e1.2);
    lemma_triple_swap(tv, d, e1);
    lemma_triple_swap(e2, d, e1);
    lemma_triple_cyclic(e1, d, e2);
    let p3 = cross3(e1, e2);
    lemma_dot_combination(tv, d, e1, e2, p3, w, tt, uu, vv);
    lemma_triple_zero(e1.0, e1.1, e1.2, e2.0, e2.1, e2.2);
    lemma_triple_zero2(e1.0, e1.1, e1.2, e2.0, e2.1, e2.2);
    lemma_triple_cyclic(e2, tv, e1);
    lemma_triple_swap(e1, d, e2);
    let k = cramer(a, f.vertex_b@, f.vertex_c@, o, d);
    let (z1, z2, z3, z4) = (dot3(d, p), dot3(e2, p), dot3(d, p2), dot3(e1, p2));
    assert(z1 == 0 && z2 == 0 && z3 == 0 && z4 == 0);
    assert(tt * z1 == 0 && vv * z2 == 0 && tt * z3 == 0 && uu * z4 == 0) by (nonlinear_arith)
        requires
            z1 == 0 && z2 == 0 && z3 == 0 && z4 == 0,
    ;
    assert(w * k.1 == uu * k.0);
    let (m1, m2) = (dot3(tv, p2), dot3(e2, p2));
    assert(m1 == -k.2 && m2 == -k.0);
    assert(w * m1 == -(w * k.2) && vv * m2 == -(vv * k.0)) by (nonlinear_arith)
        requires
            m1 == -k.2 && m2 == -k.0,
    ;
    assert(w * k.2 == vv * k.0);
    let (m3, m4, z5, z6) = (dot3(d, p3), dot3(tv, p3), dot3(e1, p3), dot3(e2, p3));
    assert(m3 == -k.0 && m4 == k.3 && z5 == 0 && z6 == 0);
    assert(tt * m3 == -(tt * k.0) && uu * z5 == 0 && vv * z6 == 0) by (nonlinear_arith)
        requires
            m3 == -k.0 && z5 == 0 && z6 == 0,
    ;
    assert(w * k.3 == tt * k.0);
}

/// `ray_hits` read geometrically: where the ray's point `o + d * tt / w`
/// (`w > 0`) is the point `a + (uu * e1 + vv * e2) / w` of the triangle's
/// plane, and the determinant is not zero, the ray hits exactly when that
/// point lies in the triangle (`uu, vv >= 0`, `uu + vv <= w`) and
/// `0 < tt / w <= max`.
pub proof fn lemma_ray_hits_geometric(f: Face, o: V3, d: V3, max: int, w: int, tt: int, uu: int, vv: int)
    requires
        f.hit_params(o, d).0 != 0,
        w > 0,
        ({
            let a = f.vertex_a@;
            let e1 = sub3(f.vertex_b@, a);
            let e2 = sub3(f.vertex_c@, a);
            &&& w * o.0 + tt * d.0 == w * a.0 + uu * e1.0 + vv * e2.0
            &&& w * o.1 + tt * d.1 == w * a.1 + uu * e1.1 + vv * e2.1
            &&& w * o.2 + tt * d.2 == w * a.2 + uu * e1.2 + vv * e2.2
        }),
    ensures
        f.ray_hits(o, d, max) == (0 <= uu && 0 <= vv && uu + vv <= w && 0 < tt && tt <= max * w),
{
    lemma_cramer_unique(f, o, d, w, tt, uu, vv);
    let r = cramer(f.vertex_a@, f.vertex_b@, f.vertex_c@, o, d);
    let k = f.hit_params(o, d);
    let (dd, u, v, t) = k;
    if r.0 < 0 {
        assert(k == (-r.0, -r.1, -r.2, -r.3));
        assert(uu * dd == w * u && vv * dd == w * v && tt * dd == w * t) by (nonlinear_arith)
            requires
                uu * r.0 == w * r.1,
                vv * r.0 == w * r.2,
                tt * r.0 == w * r.3,
                dd == -r.0,
                u == -r.1,
                v == -r.2,
                t == -r.3,
        ;
    } else {
        assert(k == r);
    }
    assert(dd > 0);
    assert((0 <= uu) == (0 <= u)) by (nonlinear_arith)
        requires
            uu * dd == w * u,
            dd > 0,
            w > 0,
    ;
    assert((0 <= vv) == (0 <= v)) by (nonlinear_arith)
        requires
            vv * dd == w * v,
            dd > 0,
            w > 0,
    ;
    assert((u <= dd) == (uu <= w)) by (nonlinear_arith)
        requires
            uu * dd == w * u,
            dd > 0,
            w > 0,
    ;
    assert((uu + vv <= w) == (u + v <= dd)) by (nonlinear_arith)
        requires
            uu * dd == w * u,
            vv * dd == w * v,
            dd > 0,
            w > 0,
    ;
    assert((0 < tt) == (0 < t)) by (nonlinear_arith)
        requires
            tt * dd == w * t,
            dd > 0,
            w > 0,
    ;
    assert((tt <= max * w) == (t <= max * dd)) by (nonlinear_arith)
        requires
            tt * dd == w * t,
            dd > 0,
            w > 0,
    ;
}

/// A ray from an origin off the face's plane, aimed so that the centroid lies
/// at parameter 1/3, hits a non-degenerate face exactly at the centroid when
/// `max` reaches past the centroid (`max >= 1`), and misses it when it stops
/// short (`max <= 0`).
pub proof fn lemma_centroid_hit(f: Face, o: V3, max: int)
    requires
        dot3(
            sub3(o, f.vertex_a@),
            cross3(sub3(f.vertex_b@, f.vertex_a@), sub3(f.vertex_c@, f.vertex_a@)),
        ) != 0,
    ensures
        max >= 1 ==> f.ray_hits(o, centroid_direction(f, o), max),
        max < 1 ==> !f.ray_hits(o, centroid_direction(f, o), max),
        forall|h: RayHit|
            #![trigger f.is_hit(h, o, centroid_direction(f, o))]
            f.is_hit(h, o, centroid_direction(f, o)) ==> {
                &&& 3 * h.t_num == h.denom
                &&& 3 * h.x == (f.vertex_a.x + f.vertex_b.x + f.vertex_c.x) * h.denom
                &&& 3 * h.y == (f.vertex_a.y + f.vertex_b.y + f.vertex_c.y) * h.denom
                &&& 3 * h.z == (f.vertex_a.z + f.vertex_b.z + f.vertex_c.z) * h.denom
            },
{
    let a = f.vertex_a@;
    let b = f.vertex_b@;
    let c = f.vertex_c@;
    let e1 = sub3(b, a);
    let e2 = sub3(c, a);
    let d = centroid_direction(f, o);
    lemma_centroid_cramer(f, o);
    let u = dot3(sub3(o, a), cross3(e1, e2));
    let w = if u < 0 { -u } else { u };
    let k = f.hit_params(o, d);
    assert(k == (3 * w, w, w, w));
    assert(w > 0);
    if max >= 1 {
        assert(w <= max * (3 * w)) by (nonlinear_arith)
            requires
                max >= 1,
                w > 0,
        ;
    } else {
        assert(max * (3 * w) < w) by (nonlinear_arith)
            requires
                max < 1,
                w > 0,
        ;
    }
    assert forall|h: RayHit| #![trigger f.is_hit(h, o, d)] f.is_hit(h, o, d) implies {
        &&& 3 * h.t_num == h.denom
        &&& 3 * h.x == (f.vertex_a.x + f.vertex_b.x + f.vertex_c.x) * h.denom
        &&& 3 * h.y == (f.vertex_a.y + f.vertex_b.y + f.vertex_c.y) * h.denom
        &&& 3 * h.z == (f.vertex_a.z + f.vertex_b.z + f.vertex_c.z) * h.denom
    } by {
        assert forall|i: int| 0 <= i < 3 implies 3 * (#[trigger] axis_of(o, i) * (3 * w) + axis_of(d, i) * w)
            == (axis_of(a, i) + axis_of(b, i) + axis_of(c, i)) * (3 * w) by {
            let oi = axis_of(o, i);
            let di = axis_of(d, i);
            let s = axis_of(a, i) + axis_of(b, i) + axis_of(c, i);
            assert(3 * (oi * (3 * w) + di * w) == s * (3 * w)) by (nonlinear_arith)
                requires
                    di == s - 3 * oi,
            ;
        }
        assert(3 * (axis_of(o, 0) * (3 * w) + axis_of(d, 0) * w) == (axis_of(a, 0) + axis_of(b, 0) + axis_of(c, 0)) * (3 * w));
        assert(3 * (axis_of(o, 1) * (3 * w) + axis_of(d, 1) * w) == (axis_of(a, 1) + axis_of(b, 1) + axis_of(c, 1)) * (3 * w));
        assert(3 * (axis_of(o, 2) * (3 * w) + axis_of(d, 2) * w) == (axis_of(a, 2) + axis_of(b, 2) + axis_of(c, 2)) * (3 * w));
    }
}

/// A ray that meets a face no farther than `max` misses it when cut shorter
/// than the distance of the hit.
pub proof fn lemma_short_ray_misses(f: Face, o: V3, d: V3, max: int, shorter: int)
    requires
        f.ray_hits(o, d, max),
        shorter * f.hit_params(o, d).0 < f.hit_params(o, d).3,
    ensures
        !f.ray_hits(o, d, shorter),
{
}

} // verus!
