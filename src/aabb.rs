use vstd::prelude::*;

use crate::geometry::{Point3, V3, COORD_LIMIT, bounded};

verus! {

/// An axis-aligned box `[min, max]` on each axis, bounds included.
#[derive(Clone, Copy, Debug, PartialEq, Eq, Structural)]
pub struct AABB {
    pub min: Point3,
    pub max: Point3,
}

/// The coordinate of `v` on axis `i` (0 is x, 1 is y, 2 is z).
pub open spec fn axis(v: V3, i: int) -> int {
    if i == 0 {
        v.0
    } else if i == 1 {
        v.1
    } else {
        v.2
    }
}

/// Numerator, over `|d|`, of the ray parameter at which a ray from `o` moving
/// by `d` enters the slab `[lo, hi]`.
pub open spec fn enter1(lo: int, hi: int, o: int, d: int) -> int {
    if d > 0 {
        lo - o
    } else {
        o - hi
    }
}

/// Numerator, over `|d|`, of the ray parameter at which the ray leaves the slab.
pub open spec fn exit1(lo: int, hi: int, o: int, d: int) -> int {
    if d > 0 {
        hi - o
    } else {
        o - lo
    }
}

pub open spec fn slab_enter(lo: V3, hi: V3, o: V3, d: V3, i: int) -> int {
    enter1(axis(lo, i), axis(hi, i), axis(o, i), axis(d, i))
}

pub open spec fn slab_exit(lo: V3, hi: V3, o: V3, d: V3, i: int) -> int {
    exit1(axis(lo, i), axis(hi, i), axis(o, i), axis(d, i))
}

pub open spec fn abs(a: int) -> int {
    if a < 0 {
        -a
    } else {
        a
    }
}

/// The slab test on exact rationals. An axis along which the ray does not move
/// puts no bound on the ray parameter, and is passed only where the origin lies
/// in that slab. Over the other axes the latest entry is no later than the
/// earliest exit, that exit is not behind the origin, and that entry is no
/// farther than `dist`.
pub open spec fn slab_hit(lo: V3, hi: V3, o: V3, d: V3, dist: int) -> bool {
    &&& forall|i: int|
        #![trigger axis(d, i)]
        0 <= i < 3 && axis(d, i) == 0 ==> axis(lo, i) <= axis(o, i) <= axis(hi, i)
    &&& forall|i: int, j: int|
        #![trigger slab_enter(lo, hi, o, d, i), slab_exit(lo, hi, o, d, j)]
        0 <= i < 3 && 0 <= j < 3 && axis(d, i) != 0 && axis(d, j) != 0 ==> slab_enter(lo, hi, o, d, i)
            * abs(axis(d, j)) <= slab_exit(lo, hi, o, d, j) * abs(axis(d, i))
    &&& forall|i: int|
        #![trigger slab_exit(lo, hi, o, d, i)]
        0 <= i < 3 && axis(d, i) != 0 ==> slab_exit(lo, hi, o, d, i) >= 0
    &&& forall|i: int|
        #![trigger slab_enter(lo, hi, o, d, i)]
        0 <= i < 3 && axis(d, i) != 0 ==> slab_enter(lo, hi, o, d, i) <= dist * abs(axis(d, i))
}

/// Corner `i` of the box `[lo, hi]`: bit 2 of `i` picks the x bound, bit 1 the y
/// bound and bit 0 the z bound (0 for the lower, 1 for the upper).
pub open spec fn corner(lo: V3, hi: V3, i: int) -> V3 {
    (
        if i / 4 % 2 == 0 { lo.0 } else { hi.0 },
        if i / 2 % 2 == 0 { lo.1 } else { hi.1 },
        if i % 2 == 0 { lo.2 } else { hi.2 },
    )
}

impl AABB {
    /// Bounds ordered on every axis.
    pub open spec fn wf(&self) -> bool {
        self.min.x <= self.max.x && self.min.y <= self.max.y && self.min.z <= self.max.z
    }

    pub open spec fn contains_spec(&self, p: V3) -> bool {
        &&& self.min.x <= p.0 <= self.max.x
        &&& self.min.y <= p.1 <= self.max.y
        &&& self.min.z <= p.2 <= self.max.z
    }

    pub open spec fn intersects_spec(&self, other: &AABB) -> bool {
        &&& self.min.x <= other.max.x && self.max.x >= other.min.x
        &&& self.min.y <= other.max.y && self.max.y >= other.min.y
        &&& self.min.z <= other.max.z && self.max.z >= other.min.z
    }

    /// The box `[min, max]`; its bounds must be ordered on every axis.
    pub fn new(min: Point3, max: Point3) -> (r: AABB)
        requires
            min.x <= max.x,
            min.y <= max.y,
            min.z <= max.z,
        ensures
            r.min == min,
            r.max == max,
            r.wf(),
    {
        AABB { min, max }
    }

    /// Whether `point` lies in the box, bounds included.
    pub fn in_bounds(&self, point: Point3) -> (r: bool)
        ensures
            r == self.contains_spec(point@),
    {
        point.x >= self.min.x && point.x <= self.max.x && point.y >= self.min.y && point.y
            <= self.max.y && point.z >= self.min.z && point.z <= self.max.z
    }

    /// Whether the two boxes overlap or touch on all three axes.
    pub fn intersects(&self, other: &AABB) -> (r: bool)
        ensures
            r == self.intersects_spec(other),
    {
        self.min.x <= other.max.x && self.max.x >= other.min.x && self.min.y <= other.max.y
            && self.max.y >= other.min.y && self.min.z <= other.max.z && self.max.z
            >= other.min.z
    }

    /// Whether the segment from `position` to `position + direction * distance`
    /// meets the box, by the slab method on exact rationals. An axis along which
    /// the ray does not move needs no substitute direction: it passes exactly
    /// when the origin lies in that slab.
    pub fn ray_intersect(&self, position: &Point3, direction: &Point3, distance: i64) -> (r: bool)
        requires
            self.wf(),
            bounded(self.min@, 4 * COORD_LIMIT),
            bounded(self.max@, 4 * COORD_LIMIT),
            position.in_range(),
            direction.in_range(),
            -COORD_LIMIT <= distance <= COORD_LIMIT,
        ensures
            r == slab_hit(self.min@, self.max@, position@, direction@, distance as int),
    {
        let lo = [self.min.x, self.min.y, self.min.z];
        let hi = [self.max.x, self.max.y, self.max.z];
        let o = [position.x, position.y, position.z];
        let d = [direction.x, direction.y, direction.z];
        let ghost (lv, hv, ov, dv) = (self.min@, self.max@, position@, direction@);
        assert(forall|k: int|
            0 <= k < 3 ==> lo@[k] == axis(lv, k) && hi@[k] == axis(hv, k) && o@[k] == axis(ov, k)
                && d@[k] == axis(dv, k));
        assert(forall|k: int|
            0 <= k < 3 ==> -4 * COORD_LIMIT <= #[trigger] lo@[k] <= 4 * COORD_LIMIT && -4
                * COORD_LIMIT <= hi@[k] <= 4 * COORD_LIMIT && -COORD_LIMIT <= o@[k] <= COORD_LIMIT
                && -COORD_LIMIT <= d@[k] <= COORD_LIMIT);
        let mut i: usize = 0;
        while i < 3
            invariant
                i <= 3,
                -COORD_LIMIT <= distance <= COORD_LIMIT,
                lv == self.min@ && hv == self.max@ && ov == position@ && dv == direction@,
                forall|k: int|
                    0 <= k < 3 ==> lo@[k] == axis(lv, k) && hi@[k] == axis(hv, k) && o@[k] == axis(
                        ov,
                        k,
                    ) && d@[k] == axis(dv, k),
                forall|k: int|
                    0 <= k < 3 ==> -4 * COORD_LIMIT <= #[trigger] lo@[k] <= 4 * COORD_LIMIT && -4
                        * COORD_LIMIT <= hi@[k] <= 4 * COORD_LIMIT && -COORD_LIMIT <= o@[k]
                        <= COORD_LIMIT && -COORD_LIMIT <= d@[k] <= COORD_LIMIT,
                forall|k: int|
                    0 <= k < i && axis(dv, k) == 0 ==> axis(lv, k) <= axis(ov, k) <= axis(hv, k),
                forall|k: int|
                    0 <= k < i && axis(dv, k) != 0 ==> slab_exit(lv, hv, ov, dv, k) >= 0 && slab_enter(
                        lv,
                        hv,
                        ov,
                        dv,
                        k,
                    ) <= distance * abs(axis(dv, k)),
            decreases 3 - i,
        {
            if d[i] == 0 {
                if !(lo[i] <= o[i] && o[i] <= hi[i]) {
                    assert(axis(dv, i as int) == 0 && !(axis(lv, i as int) <= axis(ov, i as int)
                        <= axis(hv, i as int)));
                    return false;
                }
            } else {
                let (en, ex, q) = slab_params(lo[i], hi[i], o[i], d[i]);
                proof {
                    crate::geometry::lemma_mul_bound(distance as int, q as int, 0x4_0000, 0x4_0000);
                }
                if ex < 0 || en > distance as i128 * q {
                    assert(axis(dv, i as int) != 0 && !(slab_exit(lv, hv, ov, dv, i as int) >= 0
                        && slab_enter(lv, hv, ov, dv, i as int) <= distance * abs(axis(dv, i as int))));
                    return false;
                }
            }
            i = i + 1;
        }
        let mut i: usize = 0;
        while i < 3
            invariant
                i <= 3,
                -COORD_LIMIT <= distance <= COORD_LIMIT,
                lv == self.min@ && hv == self.max@ && ov == position@ && dv == direction@,
                forall|k: int|
                    0 <= k < 3 ==> lo@[k] == axis(lv, k) && hi@[k] == axis(hv, k) && o@[k] == axis(
                        ov,
                        k,
                    ) && d@[k] == axis(dv, k),
                forall|k: int|
                    0 <= k < 3 ==> -4 * COORD_LIMIT <= #[trigger] lo@[k] <= 4 * COORD_LIMIT && -4
                        * COORD_LIMIT <= hi@[k] <= 4 * COORD_LIMIT && -COORD_LIMIT <= o@[k]
                        <= COORD_LIMIT && -COORD_LIMIT <= d@[k] <= COORD_LIMIT,
                forall|k: int|
                    0 <= k < 3 && axis(dv, k) == 0 ==> axis(lv, k) <= axis(ov, k) <= axis(hv, k),
                forall|k: int|
                    0 <= k < 3 && axis(dv, k) != 0 ==> slab_exit(lv, hv, ov, dv, k) >= 0 && slab_enter(
                        lv,
                        hv,
                        ov,
                        dv,
                        k,
                    ) <= distance * abs(axis(dv, k)),
                forall|k: int, l: int|
                    0 <= k < i && 0 <= l < 3 && axis(dv, k) != 0 && axis(dv, l) != 0 ==> slab_enter(
                        lv,
                        hv,
                        ov,
                        dv,
                        k,
                    ) * abs(axis(dv, l)) <= slab_exit(lv, hv, ov, dv, l) * abs(axis(dv, k)),
            decreases 3 - i,
        {
            let mut j: usize = 0;
            while j < 3
                invariant
                    i < 3,
                    j <= 3,
                    -COORD_LIMIT <= distance <= COORD_LIMIT,
                    lv == self.min@ && hv == self.max@ && ov == position@ && dv == direction@,
                    forall|k: int|
                        0 <= k < 3 ==> lo@[k] == axis(lv, k) && hi@[k] == axis(hv, k) && o@[k]
                            == axis(ov, k) && d@[k] == axis(dv, k),
                    forall|k: int|
                        0 <= k < 3 ==> -4 * COORD_LIMIT <= #[trigger] lo@[k] <= 4 * COORD_LIMIT && -4
                            * COORD_LIMIT <= hi@[k] <= 4 * COORD_LIMIT && -COORD_LIMIT <= o@[k]
                            <= COORD_LIMIT && -COORD_LIMIT <= d@[k] <= COORD_LIMIT,
                    forall|k: int, l: int|
                        0 <= k < i && 0 <= l < 3 && axis(dv, k) != 0 && axis(dv, l) != 0
                            ==> slab_enter(lv, hv, ov, dv, k) * abs(axis(dv, l)) <= slab_exit(
                            lv,
                            hv,
                            ov,
                            dv,
                            l,
                        ) * abs(axis(dv, k)),
                    forall|l: int|
                        0 <= l < j && axis(dv, i as int) != 0 && axis(dv, l) != 0 ==> slab_enter(
                            lv,
                            hv,
                            ov,
                            dv,
                            i as int,
                        ) * abs(axis(dv, l)) <= slab_exit(lv, hv, ov, dv, l) * abs(
                            axis(dv, i as int),
                        ),
                decreases 3 - j,
            {
                if d[i] != 0 && d[j] != 0 {
                    let (en, _, qi) = slab_params(lo[i], hi[i], o[i], d[i]);
                    let (_, ex, qj) = slab_params(lo[j], hi[j], o[j], d[j]);
                    proof {
                        crate::geometry::lemma_mul_bound(en as int, qj as int, 0x20_0000, 0x4_0000);
                        crate::geometry::lemma_mul_bound(ex as int, qi as int, 0x20_0000, 0x4_0000);
                    }
                    if en * qj > ex * qi {
                        assert(axis(dv, i as int) != 0 && axis(dv, j as int) != 0 && !(slab_enter(
                            lv,
                            hv,
                            ov,
                            dv,
                            i as int,
                        ) * abs(axis(dv, j as int)) <= slab_exit(lv, hv, ov, dv, j as int) * abs(
                            axis(dv, i as int),
                        )));
                        return false;
                    }
                }
                j = j + 1;
            }
            i = i + 1;
        }
        true
    }

    /// The eight corners, every combination of the bounds with x varying slowest
    /// and z fastest.
    pub fn get_corners(&self) -> (r: Vec<Point3>)
        ensures
            r@.len() == 8,
            forall|i: int| 0 <= i < 8 ==> r@[i]@ == corner(self.min@, self.max@, i),
    {
        let mut corners: Vec<Point3> = Vec::with_capacity(8);
        let xs = [self.min.x, self.max.x];
        let ys = [self.min.y, self.max.y];
        let zs = [self.min.z, self.max.z];
        let mut i: usize = 0;
        while i < 8
            invariant
                i <= 8,
                corners@.len() == i,
                xs@ == seq![self.min.x, self.max.x],
                ys@ == seq![self.min.y, self.max.y],
                zs@ == seq![self.min.z, self.max.z],
                forall|k: int| 0 <= k < i ==> corners@[k]@ == corner(self.min@, self.max@, k),
            decreases 8 - i,
        {
            let p = Point3::new(xs[i / 4], ys[i / 2 % 2], zs[i % 2]);
            corners.push(p);
            i = i + 1;
        }
        corners
    }
}

/// Entry and exit numerators of one slab and their common denominator `|d|`.
fn slab_params(lo: i64, hi: i64, o: i64, d: i64) -> (r: (i128, i128, i128))
    requires
        -4 * COORD_LIMIT <= lo <= 4 * COORD_LIMIT,
        -4 * COORD_LIMIT <= hi <= 4 * COORD_LIMIT,
        -COORD_LIMIT <= o <= COORD_LIMIT,
        -COORD_LIMIT <= d <= COORD_LIMIT,
        d != 0,
    ensures
        r.0 == enter1(lo as int, hi as int, o as int, d as int),
        r.1 == exit1(lo as int, hi as int, o as int, d as int),
        r.2 == abs(d as int),
        -0x20_0000 <= r.0 <= 0x20_0000,
        -0x20_0000 <= r.1 <= 0x20_0000,
        0 < r.2 <= 0x4_0000,
{
    if d > 0 {
        (lo as i128 - o as i128, hi as i128 - o as i128, d as i128)
    } else {
        (o as i128 - hi as i128, o as i128 - lo as i128, -(d as i128))
    }
}

/// Box intersection does not depend on the order of the two boxes.
pub proof fn lemma_intersects_symmetric(a: AABB, b: AABB)
    ensures
        a.intersects_spec(&b) == b.intersects_spec(&a),
{
}

} // verus!
