use vstd::prelude::*;

verus! {

/// Largest magnitude of a world coordinate, a direction component or a ray length.
pub const COORD_LIMIT: i64 = 262144;

/// A mathematical vector of three integers.
pub type V3 = (int, int, int);

/// `a - b`.
pub open spec fn sub3(a: V3, b: V3) -> V3 {
    (a.0 - b.0, a.1 - b.1, a.2 - b.2)
}

/// The cross product `a x b`.
pub open spec fn cross3(a: V3, b: V3) -> V3 {
    (a.1 * b.2 - a.2 * b.1, a.2 * b.0 - a.0 * b.2, a.0 * b.1 - a.1 * b.0)
}

/// The dot product `a . b`.
pub open spec fn dot3(a: V3, b: V3) -> int {
    a.0 * b.0 + a.1 * b.1 + a.2 * b.2
}

/// A point or vector of the integer world grid.
#[derive(Clone, Copy, Debug, PartialEq, Eq, Structural)]
pub struct Point3 {
    pub x: i64,
    pub y: i64,
    pub z: i64,
}

impl View for Point3 {
    type V = V3;

    open spec fn view(&self) -> V3 {
        (self.x as int, self.y as int, self.z as int)
    }
}

/// Every coordinate of `v` has magnitude at most `b`.
pub open spec fn bounded(v: V3, b: int) -> bool {
    -b <= v.0 <= b && -b <= v.1 <= b && -b <= v.2 <= b
}

impl Point3 {
    pub fn new(x: i64, y: i64, z: i64) -> (r: Point3)
        ensures
            r.x == x,
            r.y == y,
            r.z == z,
    {
        Point3 { x, y, z }
    }

    /// Within the coordinate range that the collision arithmetic handles exactly.
    pub open spec fn in_range(&self) -> bool {
        bounded(self@, COORD_LIMIT as int)
    }
}

/// A vector with wide components, for exact intermediate products.
#[derive(Clone, Copy, Debug)]
pub struct Wide3 {
    pub x: i128,
    pub y: i128,
    pub z: i128,
}

impl View for Wide3 {
    type V = V3;

    open spec fn view(&self) -> V3 {
        (self.x as int, self.y as int, self.z as int)
    }
}

pub(crate) proof fn lemma_mul_bound(a: int, b: int, ba: int, bb: int) by (nonlinear_arith)
    requires
        -ba <= a <= ba,
        -bb <= b <= bb,
    ensures
        -(ba * bb) <= a * b <= ba * bb,
{
}

/// `a - b` for two points of the coordinate range.
pub(crate) fn diff(a: &Point3, b: &Point3) -> (r: Wide3)
    requires
        a.in_range(),
        b.in_range(),
    ensures
        r@ == sub3(a@, b@),
        bounded(r@, 2 * COORD_LIMIT),
{
    Wide3 {
        x: a.x as i128 - b.x as i128,
        y: a.y as i128 - b.y as i128,
        z: a.z as i128 - b.z as i128,
    }
}

pub(crate) fn widen(a: &Point3) -> (r: Wide3)
    ensures
        r@ == a@,
{
    Wide3 { x: a.x as i128, y: a.y as i128, z: a.z as i128 }
}

pub(crate) fn cross(a: &Wide3, b: &Wide3, Ghost(ba): Ghost<int>, Ghost(bb): Ghost<int>) -> (r: Wide3)
    requires
        bounded(a@, ba),
        bounded(b@, bb),
        2 * (ba * bb) <= 0x1000_0000_0000_0000_0000_0000_0000_0000,
    ensures
        r@ == cross3(a@, b@),
        bounded(r@, 2 * (ba * bb)),
{
    proof {
        lemma_mul_bound(a.x as int, b.y as int, ba, bb);
        lemma_mul_bound(a.x as int, b.z as int, ba, bb);
        lemma_mul_bound(a.y as int, b.x as int, ba, bb);
        lemma_mul_bound(a.y as int, b.z as int, ba, bb);
        lemma_mul_bound(a.z as int, b.x as int, ba, bb);
        lemma_mul_bound(a.z as int, b.y as int, ba, bb);
    }
    Wide3 {
        x: a.y * b.z - a.z * b.y,
        y: a.z * b.x - a.x * b.z,
        z: a.x * b.y - a.y * b.x,
    }
}

pub(crate) fn dot(a: &Wide3, b: &Wide3, Ghost(ba): Ghost<int>, Ghost(bb): Ghost<int>) -> (r: i128)
    requires
        bounded(a@, ba),
        bounded(b@, bb),
        3 * (ba * bb) <= 0x1000_0000_0000_0000_0000_0000_0000_0000,
    ensures
        r == dot3(a@, b@),
        -(3 * (ba * bb)) <= r <= 3 * (ba * bb),
{
    proof {
        lemma_mul_bound(a.x as int, b.x as int, ba, bb);
        lemma_mul_bound(a.y as int, b.y as int, ba, bb);
        lemma_mul_bound(a.z as int, b.z as int, ba, bb);
    }
    a.x * b.x + a.y * b.y + a.z * b.z
}

pub fn min_i64(a: i64, b: i64) -> (r: i64)
    ensures
        r == if a <= b { a } else { b },
{
    if a <= b {
        a
    } else {
        b
    }
}

pub fn max_i64(a: i64, b: i64) -> (r: i64)
    ensures
        r == if a >= b { a } else { b },
{
    if a >= b {
        a
    } else {
        b
    }
}

/// One coordinate of Cramer's rule for `u * e1 + v * e2 - t * d == tv`, over
/// its twelve unknowns: `det * tv + t * d == u * e1 + v * e2`.
proof fn lemma_cramer_component(e1x: int, e1y: int, e1z: int, e2x: int, e2y: int, e2z: int, dx: int, dy: int, dz: int, tx: int, ty: int, tz: int)
    ensures
        (e1x * (dy * e2z - dz * e2y) + e1y * (dz * e2x - dx * e2z) + e1z * (dx * e2y - dy * e2x)) * tx + (e2x * (ty * e1z - tz * e1y) + e2y * (tz * e1x - tx * e1z) + e2z * (tx * e1y - ty * e1x)) * dx == (tx * (dy * e2z - dz * e2y) + ty * (dz * e2x - dx * e2z) + tz * (dx * e2y - dy * e2x)) * e1x + (dx * (ty * e1z - tz * e1y) + dy * (tz * e1x - tx * e1z) + dz * (tx * e1y - ty * e1x)) * e2x,
{
    assert(e1x * (dy * e2z - dz * e2y) == e1x * e2z * dy - e1x * e2y * dz) by (nonlinear_arith);
    assert(e1y * (dz * e2x - dx * e2z) == e1y * e2x * dz - e1y * e2z * dx) by (nonlinear_arith);
    assert(e1z * (dx * e2y - dy * e2x) == e1z * e2y * dx - e1z * e2x * dy) by (nonlinear_arith);
    assert((e1x * e2z * dy - e1x * e2y * dz + e1y * e2x * dz - e1y * e2z * dx + e1z * e2y * dx - e1z * e2x * dy) * tx == e1x * e2z * dy * tx - e1x * e2y * dz * tx + e1y * e2x * dz * tx - e1y * e2z * dx * tx + e1z * e2y * dx * tx - e1z * e2x * dy * tx) by (nonlinear_arith);
    assert(tx * (dy * e2z - dz * e2y) == e2z * dy * tx - e2y * dz * tx) by (nonlinear_arith);
    assert(ty * (dz * e2x - dx * e2z) == e2x * dz * ty - e2z * dx * ty) by (nonlinear_arith);
    assert(tz * (dx * e2y - dy * e2x) == e2y * dx * tz - e2x * dy * tz) by (nonlinear_arith);
    assert((e2z * dy * tx - e2y * dz * tx + e2x * dz * ty - e2z * dx * ty + e2y * dx * tz - e2x * dy * tz) * e1x == e2z * dy * tx * e1x - e2y * dz * tx * e1x + e2x * dz * ty * e1x - e2z * dx * ty * e1x + e2y * dx * tz * e1x - e2x * dy * tz * e1x) by (nonlinear_arith);
    assert(e2z * dy * tx * e1x == e1x * e2z * dy * tx) by (nonlinear_arith);
    assert(e2y * dz * tx * e1x == e1x * e2y * dz * tx) by (nonlinear_arith);
    assert(e2x * dz * ty * e1x == e1x * e2x * dz * ty) by (nonlinear_arith);
    assert(e2z * dx * ty * e1x == e1x * e2z * dx * ty) by (nonlinear_arith);
    assert(e2y * dx * tz * e1x == e1x * e2y * dx * tz) by (nonlinear_arith);
    assert(e2x * dy * tz * e1x == e1x * e2x * dy * tz) by (nonlinear_arith);
    assert(dx * (ty * e1z - tz * e1y) == e1z * dx * ty - e1y * dx * tz) by (nonlinear_arith);
    assert(dy * (tz * e1x - tx * e1z) == e1x * dy * tz - e1z * dy * tx) by (nonlinear_arith);
    assert(dz * (tx * e1y - ty * e1x) == e1y * dz * tx - e1x * dz * ty) by (nonlinear_arith);
    assert((e1z * dx * ty - e1y * dx * tz + e1x * dy * tz - e1z * dy * tx + e1y * dz * tx - e1x * dz * ty) * e2x == e1z * dx * ty * e2x - e1y * dx * tz * e2x + e1x * dy * tz * e2x - e1z * dy * tx * e2x + e1y * dz * tx * e2x - e1x * dz * ty * e2x) by (nonlinear_arith);
    assert(e1z * dx * ty * e2x == e1z * e2x * dx * ty) by (nonlinear_arith);
    assert(e1y * dx * tz * e2x == e1y * e2x * dx * tz) by (nonlinear_arith);
    assert(e1x * dy * tz * e2x == e1x * e2x * dy * tz) by (nonlinear_arith);
    assert(e1z * dy * tx * e2x == e1z * e2x * dy * tx) by (nonlinear_arith);
    assert(e1y * dz * tx * e2x == e1y * e2x * dz * tx) by (nonlinear_arith);
    assert(e1x * dz * ty * e2x == e1x * e2x * dz * ty) by (nonlinear_arith);
    assert(e2x * (ty * e1z - tz * e1y) == e1z * e2x * ty - e1y * e2x * tz) by (nonlinear_arith);
    assert(e2y * (tz * e1x - tx * e1z) == e1x * e2y * tz - e1z * e2y * tx) by (nonlinear_arith);
    assert(e2z * (tx * e1y - ty * e1x) == e1y * e2z * tx - e1x * e2z * ty) by (nonlinear_arith);
    assert((e1z * e2x * ty - e1y * e2x * tz + e1x * e2y * tz - e1z * e2y * tx + e1y * e2z * tx - e1x * e2z * ty) * dx == e1z * e2x * ty * dx - e1y * e2x * tz * dx + e1x * e2y * tz * dx - e1z * e2y * tx * dx + e1y * e2z * tx * dx - e1x * e2z * ty * dx) by (nonlinear_arith);
    assert(e1z * e2x * ty * dx == e1z * e2x * dx * ty) by (nonlinear_arith);
    assert(e1y * e2x * tz * dx == e1y * e2x * dx * tz) by (nonlinear_arith);
    assert(e1x * e2y * tz * dx == e1x * e2y * dx * tz) by (nonlinear_arith);
    assert(e1z * e2y * tx * dx == e1z * e2y * dx * tx) by (nonlinear_arith);
    assert(e1y * e2z * tx * dx == e1y * e2z * dx * tx) by (nonlinear_arith);
    assert(e1x * e2z * ty * dx == e1x * e2z * dx * ty) by (nonlinear_arith);
}

/// Cramer's rule for `u * e1 + v * e2 - t * d == tv`: with
/// `det = e1 . (d x e2)`, `u = tv . (d x e2)`, `v = d . (tv x e1)` and
/// `t = e2 . (tv x e1)`, `det * tv + t * d == u * e1 + v * e2`.
pub proof fn lemma_cramer(e1: V3, e2: V3, d: V3, tv: V3)
    ensures
        ({
            let p = cross3(d, e2);
            let q = cross3(tv, e1);
            let det = dot3(e1, p);
            let u = dot3(tv, p);
            let v = dot3(d, q);
            let t = dot3(e2, q);
            &&& det * tv.0 + t * d.0 == u * e1.0 + v * e2.0
            &&& det * tv.1 + t * d.1 == u * e1.1 + v * e2.1
            &&& det * tv.2 + t * d.2 == u * e1.2 + v * e2.2
        }),
{
    lemma_cramer_component(e1.0, e1.1, e1.2, e2.0, e2.1, e2.2, d.0, d.1, d.2, tv.0, tv.1, tv.2);
    lemma_cramer_component(e1.1, e1.2, e1.0, e2.1, e2.2, e2.0, d.1, d.2, d.0, tv.1, tv.2, tv.0);
    lemma_cramer_component(e1.2, e1.0, e1.1, e2.2, e2.0, e2.1, d.2, d.0, d.1, tv.2, tv.0, tv.1);
}

} // verus!
