use vstd::prelude::*;

use crate::aabb::{AABB, corner};
use crate::face::{CollisionResult, Face, RayHit, det_bound, max3, min3, t_bound};
use crate::geometry::{COORD_LIMIT, Point3, V3, max_i64, min_i64};
use std::collections::HashMap;

verus! {

broadcast use vstd::std_specs::hash::group_hash_axioms;

/// The edge lengths that a grid cell may have.
#[derive(Clone, Copy, Debug, PartialEq, Eq, Structural)]
pub enum NodeSize {
    Size16,
    Size32,
    Size64,
    Size128,
    Size256,
    Size512,
    Size1024,
    Size4096,
    Size8192,
}

impl NodeSize {
    pub open spec fn spec_value(&self) -> int {
        match self {
            NodeSize::Size16 => 16,
            NodeSize::Size32 => 32,
            NodeSize::Size64 => 64,
            NodeSize::Size128 => 128,
            NodeSize::Size256 => 256,
            NodeSize::Size512 => 512,
            NodeSize::Size1024 => 1024,
            NodeSize::Size4096 => 4096,
            NodeSize::Size8192 => 8192,
        }
    }

    /// The edge length in world units.
    pub fn value(&self) -> (r: i64)
        ensures
            r == self.spec_value(),
    {
        match self {
            NodeSize::Size16 => 16,
            NodeSize::Size32 => 32,
            NodeSize::Size64 => 64,
            NodeSize::Size128 => 128,
            NodeSize::Size256 => 256,
            NodeSize::Size512 => 512,
            NodeSize::Size1024 => 1024,
            NodeSize::Size4096 => 4096,
            NodeSize::Size8192 => 8192,
        }
    }
}

/// Why a mesh was not taken into the world.
#[derive(Clone, Copy, Debug, PartialEq, Eq, Structural)]
pub enum WorldError {
    /// The vertex count is not a multiple of three.
    InvalidGeometry,
    /// A triangle's bounding box is longer than a cell on some axis.
    OversizedGeometry,
}

/// The faces of a triangle list, one for each three vertices in a row.
pub open spec fn mesh_faces(v: Seq<Point3>) -> Seq<Face> {
    Seq::new(v.len() / 3, |t: int| Face::spec_new(v[3 * t], v[3 * t + 1], v[3 * t + 2]))
}

/// The lower corner of the grid cell of edge `s` that holds coordinate `x`:
/// `floor(x / s) * s`.
pub open spec fn cell(x: int, s: int) -> int {
    x - x % s
}

pub open spec fn cell_point(p: V3, s: int) -> V3 {
    (cell(p.0, s), cell(p.1, s), cell(p.2, s))
}

/// The cell of corner `i` of a face's bounding box.
pub open spec fn corner_cell(f: Face, i: int, s: int) -> V3 {
    cell_point(corner(f.aabb.min@, f.aabb.max@, i), s)
}

/// The longest side of a face's bounding box is at most `s`.
pub open spec fn fits_cell(f: Face, s: int) -> bool {
    &&& f.aabb.max.x - f.aabb.min.x <= s
    &&& f.aabb.max.y - f.aabb.min.y <= s
    &&& f.aabb.max.z - f.aabb.min.z <= s
}

/// `t1 / d1 <= t2 / d2` for positive denominators.
pub open spec fn frac_le(t1: int, d1: int, t2: int, d2: int) -> bool {
    t1 * d2 <= t2 * d1
}

pub open spec fn min2(a: int, b: int) -> int {
    if a <= b {
        a
    } else {
        b
    }
}

pub open spec fn max2(a: int, b: int) -> int {
    if a >= b {
        a
    } else {
        b
    }
}

/// The cell of edge `s` with lower corner `key` overlaps or touches the box
/// `[lo, hi]` on the given axis.
pub open spec fn cell_meets_axis(key: int, s: int, lo: int, hi: int) -> bool {
    key <= hi && key + s >= lo
}

proof fn lemma_cell_bounds(x: int, s: int)
    requires
        s > 0,
    ensures
        x - s < cell(x, s) <= x,
        cell(x, s) == s * (x / s),
{
    vstd::arithmetic::div_mod::lemma_fundamental_div_mod(x, s);
    vstd::arithmetic::div_mod::lemma_mod_bound(x, s);
}

proof fn lemma_cell_monotonic(x: int, y: int, s: int)
    requires
        s > 0,
        x <= y,
    ensures
        cell(x, s) <= cell(y, s),
{
    lemma_cell_bounds(x, s);
    lemma_cell_bounds(y, s);
    vstd::arithmetic::div_mod::lemma_div_is_ordered(x, y, s);
    vstd::arithmetic::mul::lemma_mul_inequality(x / s, y / s, s);
    vstd::arithmetic::mul::lemma_mul_is_commutative(s, x / s);
    vstd::arithmetic::mul::lemma_mul_is_commutative(s, y / s);
}

proof fn lemma_cell_shift(x: int, s: int)
    requires
        s > 0,
    ensures
        cell(x + s, s) == cell(x, s) + s,
{
    vstd::arithmetic::div_mod::lemma_mod_add_multiples_vanish(x, s);
}

/// `D * lo <= (D - U - V) * a + U * b + V * c <= D * hi` for weights that are
/// not negative and sum to `D`, and `lo <= a, b, c <= hi`.
proof fn lemma_convex(a: int, b: int, c: int, d: int, u: int, v: int, lo: int, hi: int)
    requires
        u >= 0,
        v >= 0,
        u + v <= d,
        lo <= a <= hi,
        lo <= b <= hi,
        lo <= c <= hi,
    ensures
        d * lo <= a * d + (b - a) * u + (c - a) * v <= d * hi,
{
    let w = d - u - v;
    assert(a * d + (b - a) * u + (c - a) * v == w * a + u * b + v * c) by (nonlinear_arith)
        requires
            w == d - u - v,
    ;
    assert(w * a >= w * lo) by (nonlinear_arith)
        requires
            w >= 0,
            a >= lo,
    ;
    assert(u * b >= u * lo) by (nonlinear_arith)
        requires
            u >= 0,
            b >= lo,
    ;
    assert(v * c >= v * lo) by (nonlinear_arith)
        requires
            v >= 0,
            c >= lo,
    ;
    assert(w * a <= w * hi) by (nonlinear_arith)
        requires
            w >= 0,
            a <= hi,
    ;
    assert(u * b <= u * hi) by (nonlinear_arith)
        requires
            u >= 0,
            b <= hi,
    ;
    assert(v * c <= v * hi) by (nonlinear_arith)
        requires
            v >= 0,
            c <= hi,
    ;
    assert(w * lo + u * lo + v * lo == d * lo) by (nonlinear_arith)
        requires
            w == d - u - v,
    ;
    assert(w * hi + u * hi + v * hi == d * hi) by (nonlinear_arith)
        requires
            w == d - u - v,
    ;
}

/// `D * min(o, e) <= o * D + dd * T <= D * max(o, e)` for `e = o + dd * m` and
/// `0 < T <= m * D`.
proof fn lemma_on_segment(o: int, dd: int, m: int, d: int, t: int)
    requires
        d > 0,
        0 < t <= m * d,
    ensures
        d * min2(o, o + dd * m) <= o * d + dd * t <= d * max2(o, o + dd * m),
{
    let e = o + dd * m;
    let p = o * d + dd * t;
    assert(d * e == o * d + dd * (m * d)) by (nonlinear_arith)
        requires
            e == o + dd * m,
    ;
    assert(d * o == o * d) by (nonlinear_arith);
    if dd >= 0 {
        assert(0 <= dd * t <= dd * (m * d)) by (nonlinear_arith)
            requires
                dd >= 0,
                0 < t <= m * d,
        ;
        assert(d * o <= p <= d * e);
        assert(o <= e) by (nonlinear_arith)
            requires
                e == o + dd * m,
                dd >= 0,
                m * d > 0,
                d > 0,
        ;
        assert(min2(o, e) == o && max2(o, e) == e);
    } else {
        assert(dd * (m * d) <= dd * t <= 0) by (nonlinear_arith)
            requires
                dd < 0,
                0 < t <= m * d,
        ;
        assert(d * e <= p <= d * o);
        assert(e <= o) by (nonlinear_arith)
            requires
                e == o + dd * m,
                dd < 0,
                m * d > 0,
                d > 0,
        ;
        assert(min2(o, e) == e && max2(o, e) == o);
    }
}

proof fn lemma_scaled_le(x: int, y: int, d: int, p: int)
    requires
        d > 0,
        d * x <= p,
        p <= d * y,
    ensures
        x <= y,
{
    if x > y {
        assert(d * x > d * y) by (nonlinear_arith)
            requires
                d > 0,
                x > y,
        ;
    }
}

/// On one axis: a point of a triangle that lies on the ray segment puts one of
/// the two cells holding the ends of the triangle's box in reach of the segment's
/// cell range.
proof fn lemma_axis_meets(
    a: int,
    b: int,
    c: int,
    o: int,
    dd: int,
    m: int,
    d: int,
    u: int,
    v: int,
    t: int,
    s: int,
)
    requires
        d > 0,
        u >= 0,
        v >= 0,
        u + v <= d,
        0 < t <= m * d,
        s > 0,
        o * d + dd * t == a * d + (b - a) * u + (c - a) * v,
        max3(a, b, c) - min3(a, b, c) <= s,
    ensures
        ({
            let lo = min2(cell(o, s), cell(o + dd * m, s));
            let hi = max2(cell(o, s), cell(o + dd * m, s));
            cell_meets_axis(cell(min3(a, b, c), s), s, lo, hi) || cell_meets_axis(
                cell(max3(a, b, c), s),
                s,
                lo,
                hi,
            )
        }),
{
    let mn = min3(a, b, c);
    let mx = max3(a, b, c);
    let e = o + dd * m;
    let p = o * d + dd * t;
    lemma_convex(a, b, c, d, u, v, mn, mx);
    lemma_on_segment(o, dd, m, d, t);
    lemma_scaled_le(mn, max2(o, e), d, p);
    lemma_scaled_le(min2(o, e), mx, d, p);
    lemma_cell_monotonic(mn, max2(o, e), s);
    lemma_cell_monotonic(min2(o, e), mx, s);
    lemma_cell_monotonic(mn, mx, s);
    lemma_cell_monotonic(mx, mn + s, s);
    lemma_cell_shift(mn, s);
    if o <= e {
        lemma_cell_monotonic(o, e, s);
    } else {
        lemma_cell_monotonic(e, o, s);
    }
}

/// Where the ray from `o` along `d` ends after `m` lengths of `d`.
pub open spec fn ray_end(o: V3, d: V3, m: int) -> V3 {
    (o.0 + d.0 * m, o.1 + d.1 * m, o.2 + d.2 * m)
}

/// Lower corner of the box spanned by the cells of the ray's two ends.
pub open spec fn ray_box_lo(o: V3, d: V3, m: int, s: int) -> V3 {
    let e = ray_end(o, d, m);
    (min2(cell(o.0, s), cell(e.0, s)), min2(cell(o.1, s), cell(e.1, s)), min2(cell(o.2, s), cell(e.2, s)))
}

/// Upper corner of the box spanned by the cells of the ray's two ends.
pub open spec fn ray_box_hi(o: V3, d: V3, m: int, s: int) -> V3 {
    let e = ray_end(o, d, m);
    (max2(cell(o.0, s), cell(e.0, s)), max2(cell(o.1, s), cell(e.1, s)), max2(cell(o.2, s), cell(e.2, s)))
}

/// The cell with lower corner `key` overlaps or touches the box `[lo, hi]`.
pub open spec fn cell_meets(key: V3, s: int, lo: V3, hi: V3) -> bool {
    &&& cell_meets_axis(key.0, s, lo.0, hi.0)
    &&& cell_meets_axis(key.1, s, lo.1, hi.1)
    &&& cell_meets_axis(key.2, s, lo.2, hi.2)
}

/// A face that fits a cell and is hit by a ray has a corner whose cell meets the
/// box of the ray's cells: registering a face at the cells of its corners loses
/// no hit.
pub proof fn lemma_hit_cell(f: Face, o: V3, d: V3, m: int, s: int)
    requires
        f.wf(),
        fits_cell(f, s),
        s > 0,
        f.ray_hits(o, d, m),
    ensures
        exists|c: int|
            0 <= c < 8 && cell_meets(
                #[trigger] corner_cell(f, c, s),
                s,
                ray_box_lo(o, d, m, s),
                ray_box_hi(o, d, m, s),
            ),
{
    let k = f.hit_params(o, d);
    let a = f.vertex_a@;
    let b = f.vertex_b@;
    let c = f.vertex_c@;
    crate::face::lemma_hit_point(f, o, d);
    lemma_axis_meets(a.0, b.0, c.0, o.0, d.0, m, k.0, k.1, k.2, k.3, s);
    lemma_axis_meets(a.1, b.1, c.1, o.1, d.1, m, k.0, k.1, k.2, k.3, s);
    lemma_axis_meets(a.2, b.2, c.2, o.2, d.2, m, k.0, k.1, k.2, k.3, s);
    let lo = ray_box_lo(o, d, m, s);
    let hi = ray_box_hi(o, d, m, s);
    let bx: int = if cell_meets_axis(cell(f.aabb.min.x as int, s), s, lo.0, hi.0) { 0 } else { 1 };
    let by: int = if cell_meets_axis(cell(f.aabb.min.y as int, s), s, lo.1, hi.1) { 0 } else { 1 };
    let bz: int = if cell_meets_axis(cell(f.aabb.min.z as int, s), s, lo.2, hi.2) { 0 } else { 1 };
    let ci = 4 * bx + 2 * by + bz;
    assert(ci / 4 % 2 == bx && ci / 2 % 2 == by && ci % 2 == bz);
    assert(cell_meets(corner_cell(f, ci, s), s, lo, hi));
}

/// One grid cell: its lower corner, its box and the faces registered in it.
pub struct Node {
    pub key: Point3,
    pub aabb: AABB,
    pub faces: Vec<Face>,
}

impl Node {
    /// An empty cell spanning `[min, max]`.
    pub fn new(min: Point3, max: Point3) -> (r: Node)
        requires
            min.x <= max.x,
            min.y <= max.y,
            min.z <= max.z,
        ensures
            r.key == min,
            r.aabb.min == min,
            r.aabb.max == max,
            r.faces@.len() == 0,
    {
        Node { key: min, aabb: AABB::new(min, max), faces: Vec::new() }
    }

    pub fn add_face(&mut self, face: Face)
        ensures
            final(self).key == old(self).key,
            final(self).aabb == old(self).aabb,
            final(self).faces@ == old(self).faces@.push(face),
    {
        self.faces.push(face);
    }
}

/// A uniform grid of cells over static triangles, answering nearest-hit ray
/// queries.
pub struct StaticWorld {
    node_size: i64,
    nodes: Vec<Node>,
    index: HashMap<u64, usize>,
    face_count: usize,
    all_faces: Ghost<Seq<Face>>,
}

impl StaticWorld {
    /// The edge length of a cell.
    pub closed spec fn size(&self) -> int {
        self.node_size as int
    }

    /// Every face taken in so far, in the order it came.
    pub closed spec fn faces(&self) -> Seq<Face> {
        self.all_faces@
    }

    pub closed spec fn node_wf(&self, n: Node) -> bool {
        let s = self.node_size as int;
        &&& n.aabb.min == n.key
        &&& n.aabb.max.x == n.key.x + s
        &&& n.aabb.max.y == n.key.y + s
        &&& n.aabb.max.z == n.key.z + s
        &&& -2 * COORD_LIMIT <= n.key.x <= COORD_LIMIT
        &&& -2 * COORD_LIMIT <= n.key.y <= COORD_LIMIT
        &&& -2 * COORD_LIMIT <= n.key.z <= COORD_LIMIT
    }

    /// A stored face is in range, fits a cell, and is registered in the cell of
    /// each corner of its box.
    pub closed spec fn face_registered(&self, f: Face) -> bool {
        &&& f.wf()
        &&& f.in_range()
        &&& fits_cell(f, self.node_size as int)
        &&& forall|c: int|
            0 <= c < 8 ==> self.registered_at(f, #[trigger] corner_cell(f, c, self.node_size as int))
    }

    /// Some cell with lower corner `key` holds `f`.
    pub closed spec fn registered_at(&self, f: Face, key: V3) -> bool {
        exists|i: int|
            0 <= i < self.nodes@.len() && (#[trigger] self.nodes@[i]).key@ == key
                && self.nodes@[i].faces@.contains(f)
    }

    /// Everything of `wf` but the registration of each face.
    pub closed spec fn wf_core(&self) -> bool {
        &&& 16 <= self.node_size <= 8192
        &&& forall|i: int| 0 <= i < self.nodes@.len() ==> self.node_wf(#[trigger] self.nodes@[i])
        &&& forall|i: int, j: int|
            0 <= i < self.nodes@.len() && 0 <= j < self.nodes@.len() && i != j
                ==> #[trigger] self.nodes@[i].key != #[trigger] self.nodes@[j].key
        &&& forall|i: int, j: int|
            0 <= i < self.nodes@.len() && 0 <= j < self.nodes@[i].faces@.len()
                ==> self.all_faces@.contains(#[trigger] self.nodes@[i].faces@[j])
        &&& self.face_count == self.all_faces@.len()
        &&& forall|i: int|
            0 <= i < self.nodes@.len() ==> self.index@.contains_key(
                cell_code(#[trigger] self.nodes@[i].key@) as u64,
            ) && self.index@[cell_code(self.nodes@[i].key@) as u64] == i
        &&& forall|c: u64|
            #[trigger] self.index@.contains_key(c) ==> (self.index@[c] as int) < self.nodes@.len()
                && cell_code(self.nodes@[self.index@[c] as int].key@) == c
    }

    /// The world has a cell with lower corner `key`.
    pub closed spec fn has_cell(&self, key: V3) -> bool {
        exists|i: int| 0 <= i < self.nodes@.len() && (#[trigger] self.nodes@[i]).key@ == key
    }

    closed spec fn cell_index(&self, key: V3) -> int {
        choose|i: int| 0 <= i < self.nodes@.len() && (#[trigger] self.nodes@[i]).key@ == key
    }

    /// The faces registered in the cell with lower corner `key`, in the order
    /// they were registered; empty where the world has no such cell.
    pub closed spec fn cell_faces(&self, key: V3) -> Seq<Face> {
        if self.has_cell(key) {
            self.nodes@[self.cell_index(key)].faces@
        } else {
            Seq::empty()
        }
    }

    /// The box of the cell with lower corner `key`, where there is one.
    pub closed spec fn cell_aabb(&self, key: V3) -> AABB {
        self.nodes@[self.cell_index(key)].aabb
    }

    proof fn lemma_cell_at(&self, i: int)
        requires
            self.wf_core(),
            0 <= i < self.nodes@.len(),
        ensures
            self.has_cell(self.nodes@[i].key@),
            self.cell_index(self.nodes@[i].key@) == i,
            self.cell_faces(self.nodes@[i].key@) == self.nodes@[i].faces@,
            self.cell_aabb(self.nodes@[i].key@) == self.nodes@[i].aabb,
    {
        let key = self.nodes@[i].key@;
        assert(self.nodes@[i].key@ == key);
        let j = self.cell_index(key);
        if j != i {
            assert(self.nodes@[i].key != self.nodes@[j].key);
        }
    }

    /// Every cell of a valid world spans `[key, key + size]` on each axis.
    pub proof fn lemma_cell_aabb(&self, key: V3)
        requires
            self.wf(),
            self.has_cell(key),
        ensures
            self.cell_aabb(key).min@ == key,
            self.cell_aabb(key).max@ == (key.0 + self.size(), key.1 + self.size(), key.2 + self.size()),
    {
        let i = choose|i: int| 0 <= i < self.nodes@.len() && (#[trigger] self.nodes@[i]).key@ == key;
        self.lemma_cell_at(i);
        assert(self.node_wf(self.nodes@[i]));
    }

    /// Cells of `prev` other than `key` are unchanged in `self`, where `self`
    /// has the same keys in the same places and at most adds cells at `key`.
    proof fn lemma_cells_frame(&self, prev: &StaticWorld, key: V3, k: V3)
        requires
            self.wf_core(),
            prev.wf_core(),
            k != key,
            self.nodes@.len() >= prev.nodes@.len(),
            forall|i: int| 0 <= i < prev.nodes@.len() ==> (#[trigger] self.nodes@[i]).key == prev.nodes@[i].key,
            forall|i: int|
                0 <= i < prev.nodes@.len() && self.nodes@[i].key@ != key ==> (#[trigger] self.nodes@[i]).faces@
                    == prev.nodes@[i].faces@,
            forall|i: int| prev.nodes@.len() <= i < self.nodes@.len() ==> (#[trigger] self.nodes@[i]).key@ == key,
        ensures
            self.has_cell(k) == prev.has_cell(k),
            self.cell_faces(k) == prev.cell_faces(k),
    {
        if self.has_cell(k) {
            let i = self.cell_index(k);
            self.lemma_cell_at(i);
            assert(i < prev.nodes@.len());
            assert(prev.nodes@[i].key@ == k);
            prev.lemma_cell_at(i);
        } else if prev.has_cell(k) {
            let i = prev.cell_index(k);
            assert(self.nodes@[i].key@ == k);
        }
    }

    /// Cell keys are unique, each cell spans `[key, key + size]`, every face in a
    /// cell is a face of the world, and every face of the world is registered in
    /// the cell of each corner of its box.
    pub closed spec fn wf(&self) -> bool {
        &&& self.wf_core()
        &&& forall|k: int|
            0 <= k < self.all_faces@.len() ==> self.face_registered(#[trigger] self.all_faces@[k])
    }

    /// `self` keeps every cell of `prev` at the same place, with the same key,
    /// and with its faces as a prefix of its own.
    pub closed spec fn grows_from(&self, prev: &StaticWorld) -> bool {
        &&& self.node_size == prev.node_size
        &&& self.nodes@.len() >= prev.nodes@.len()
        &&& forall|i: int|
            0 <= i < prev.nodes@.len() ==> (#[trigger] self.nodes@[i]).key == prev.nodes@[i].key
                && self.nodes@[i].faces@.len() >= prev.nodes@[i].faces@.len() && forall|j: int|
                0 <= j < prev.nodes@[i].faces@.len() ==> #[trigger] self.nodes@[i].faces@[j]
                    == prev.nodes@[i].faces@[j]
    }

    proof fn lemma_grows_registered(&self, prev: &StaticWorld, f: Face, key: V3)
        requires
            self.grows_from(prev),
            prev.registered_at(f, key),
        ensures
            self.registered_at(f, key),
    {
        let i = choose|i: int|
            0 <= i < prev.nodes@.len() && (#[trigger] prev.nodes@[i]).key@ == key
                && prev.nodes@[i].faces@.contains(f);
        let j = choose|j: int| 0 <= j < prev.nodes@[i].faces@.len() && prev.nodes@[i].faces@[j] == f;
        assert(self.nodes@[i].faces@[j] == f);
        assert(self.nodes@[i].faces@.contains(f));
    }

    proof fn lemma_grows_face_registered(&self, prev: &StaticWorld, f: Face)
        requires
            self.grows_from(prev),
            prev.face_registered(f),
        ensures
            self.face_registered(f),
    {
        assert forall|c: int| 0 <= c < 8 implies self.registered_at(
            f,
            #[trigger] corner_cell(f, c, self.node_size as int),
        ) by {
            self.lemma_grows_registered(prev, f, corner_cell(f, c, self.node_size as int));
        }
    }

    /// An empty world with cells of the given size.
    pub fn new(node_size: NodeSize) -> (r: StaticWorld)
        ensures
            r.wf(),
            r.size() == node_size.spec_value(),
            r.faces().len() == 0,
    {
        StaticWorld {
            node_size: node_size.value(),
            nodes: Vec::new(),
            index: HashMap::new(),
            face_count: 0,
            all_faces: Ghost(Seq::empty()),
        }
    }

    /// The lower corner of the cell that holds `point`.
    fn point_to_top_level_node_coord(&self, point: &Point3) -> (r: Point3)
        requires
            16 <= self.node_size <= 8192,
            -0x100_0000_0000 <= point.x <= 0x100_0000_0000,
            -0x100_0000_0000 <= point.y <= 0x100_0000_0000,
            -0x100_0000_0000 <= point.z <= 0x100_0000_0000,
        ensures
            r@ == cell_point(point@, self.node_size as int),
    {
        Point3::new(
            cell_of(point.x, self.node_size),
            cell_of(point.y, self.node_size),
            cell_of(point.z, self.node_size),
        )
    }

    /// The index of the cell with lower corner `key`, if there is one, looked up
    /// by the key's packed code.
    fn find_node(&self, key: &Point3) -> (r: Option<usize>)
        requires
            self.wf_core(),
            key_in_grid(key@),
        ensures
            match r {
                Some(i) => i < self.nodes@.len() && self.nodes@[i as int].key == *key,
                None => forall|i: int| 0 <= i < self.nodes@.len() ==> self.nodes@[i].key != *key,
            },
    {
        let code = code_of(key);
        match self.index.get(&code) {
            Some(i) => {
                proof {
                    let n = self.nodes@[*i as int];
                    assert(self.node_wf(n));
                    lemma_cell_code_injective(n.key@, key@);
                }
                Some(*i)
            },
            None => {
                assert forall|i: int| 0 <= i < self.nodes@.len() implies self.nodes@[i].key != *key by {
                    if self.nodes@[i].key == *key {
                        assert(self.index@.contains_key(cell_code(self.nodes@[i].key@) as u64));
                    }
                }
                None
            },
        }
    }

    /// Registers `face` in the cell that holds `point`, creating the cell if
    /// needed, unless `nodes_added` says this face is there already.
    fn add_face_for_point_into_top_level_node(
        &mut self,
        face: &Face,
        point: &Point3,
        nodes_added: &mut Vec<Point3>,
    )
        requires
            old(self).wf_core(),
            old(self).all_faces@.contains(*face),
            point.in_range(),
            forall|q: int|
                0 <= q < old(nodes_added)@.len() ==> old(self).registered_at(
                    *face,
                    #[trigger] old(nodes_added)@[q]@,
                ),
        ensures
            final(self).wf_core(),
            final(self).all_faces == old(self).all_faces,
            final(self).grows_from(old(self)),
            final(self).registered_at(*face, cell_point(point@, old(self).node_size as int)),
            forall|q: int|
                0 <= q < final(nodes_added)@.len() ==> final(self).registered_at(
                    *face,
                    #[trigger] final(nodes_added)@[q]@,
                ),
            ({
                let s = old(self).node_size as int;
                let key = cell_point(point@, s);
                &&& final(self).has_cell(key)
                &&& final(self).cell_aabb(key).min@ == key
                &&& final(self).cell_aabb(key).max@ == (key.0 + s, key.1 + s, key.2 + s)
                &&& key_listed(old(nodes_added)@, key) ==> final(nodes_added)@ == old(nodes_added)@
                    && final(self).cell_faces(key) == old(self).cell_faces(key)
                &&& !key_listed(old(nodes_added)@, key) ==> final(nodes_added)@ == old(nodes_added)@.push(
                    final(nodes_added)@.last(),
                ) && final(nodes_added)@.last()@ == key && final(self).cell_faces(key) == old(
                    self,
                ).cell_faces(key).push(*face)
                &&& forall|k: V3|
                    k != key ==> #[trigger] final(self).has_cell(k) == old(self).has_cell(k)
                        && final(self).cell_faces(k) == old(self).cell_faces(k)
            }),
    {
        let ghost prev = *self;
        let ghost added0 = nodes_added@;
        let key = self.point_to_top_level_node_coord(point);
        proof {
            lemma_cell_bounds(point.x as int, self.node_size as int);
            lemma_cell_bounds(point.y as int, self.node_size as int);
            lemma_cell_bounds(point.z as int, self.node_size as int);
        }
        let ghost s = self.node_size as int;
        let found = self.find_node(&key);
        let idx = match found {
            Some(i) => i,
            None => {
                let s = self.node_size;
                let node = Node::new(key, Point3::new(key.x + s, key.y + s, key.z + s));
                self.nodes.push(node);
                let code = code_of(&key);
                self.index.insert(code, self.nodes.len() - 1);
                proof {
                    assert forall|i: int| 0 <= i < prev.nodes@.len() implies cell_code(
                        #[trigger] self.nodes@[i].key@,
                    ) != cell_code(key@) by {
                        assert(prev.node_wf(prev.nodes@[i]));
                        assert(self.nodes@[i] == prev.nodes@[i]);
                        if cell_code(self.nodes@[i].key@) == cell_code(key@) {
                            lemma_cell_code_injective(self.nodes@[i].key@, key@);
                        }
                    }
                    let n = self.nodes@.len() - 1;
                    assert(self.nodes@[n].key == key);
                }
                assert(self.grows_from(&prev));
                self.nodes.len() - 1
            },
        };
        let ghost mid = *self;
        proof {
            mid.lemma_cell_at(idx as int);
            assert(mid.node_wf(mid.nodes@[idx as int]));
            if found is Some {
                prev.lemma_cell_at(idx as int);
            } else {
                assert(!prev.has_cell(key@));
            }
            assert(mid.cell_faces(key@) == prev.cell_faces(key@));
            assert forall|k: V3| k != key@ implies #[trigger] mid.has_cell(k) == prev.has_cell(k)
                && mid.cell_faces(k) == prev.cell_faces(k) by {
                mid.lemma_cells_frame(&prev, key@, k);
            }
        }
        assert forall|q: int| 0 <= q < added0.len() implies mid.registered_at(
            *face,
            #[trigger] added0[q]@,
        ) by {
            mid.lemma_grows_registered(&prev, *face, added0[q]@);
        }
        if contains_key(nodes_added, &key) {
            assert(key_listed(added0, key@)) by {
                let q = choose|q: int| 0 <= q < added0.len() && added0[q] == key;
                assert(added0[q]@ == key@);
            }
            return;
        }
        assert(!key_listed(added0, key@));
        nodes_added.push(key);
        self.nodes[idx].add_face(*face);
        assert(self.grows_from(&mid));
        assert(self.nodes@[idx as int].faces@.last() == *face);
        assert(self.nodes@[idx as int].faces@.contains(*face));
        assert(self.registered_at(*face, key@));
        assert forall|q: int| 0 <= q < nodes_added@.len() implies self.registered_at(
            *face,
            #[trigger] nodes_added@[q]@,
        ) by {
            if q < added0.len() {
                self.lemma_grows_registered(&mid, *face, added0[q]@);
            }
        }
        assert forall|i: int, j: int|
            0 <= i < self.nodes@.len() && 0 <= j < self.nodes@[i].faces@.len()
                implies self.all_faces@.contains(#[trigger] self.nodes@[i].faces@[j]) by {
            if i != idx || j < mid.nodes@[i].faces@.len() {
                assert(self.nodes@[i].faces@[j] == mid.nodes@[i].faces@[j]);
            }
        }
        assert(self.grows_from(&prev));
        proof {
            self.lemma_cell_at(idx as int);
            assert forall|k: V3| k != key@ implies #[trigger] self.has_cell(k) == prev.has_cell(k)
                && self.cell_faces(k) == prev.cell_faces(k) by {
                assert forall|i: int|
                    0 <= i < mid.nodes@.len() && self.nodes@[i].key@ != key@ implies (#[trigger] self.nodes@[i]).faces@
                        == mid.nodes@[i].faces@ by {
                    assert(i != idx);
                }
                self.lemma_cells_frame(&mid, key@, k);
            }
        }
    }

    /// Takes `face` into the world and registers it in the cell of each corner
    /// of its box, once per cell.
    fn add_face(&mut self, face: Face)
        requires
            old(self).wf(),
            face.wf(),
            face.in_range(),
            fits_cell(face, old(self).node_size as int),
            old(self).all_faces@.len() < usize::MAX,
        ensures
            final(self).wf(),
            final(self).all_faces@ == old(self).all_faces@.push(face),
            final(self).node_size == old(self).node_size,
            forall|k: V3|
                #[trigger] touches(face, k, old(self).node_size as int) ==> final(self).has_cell(k)
                    && final(self).cell_faces(k) == old(self).cell_faces(k).push(face),
            forall|k: V3|
                !touches(face, k, old(self).node_size as int) ==> #[trigger] final(self).has_cell(k)
                    == old(self).has_cell(k) && final(self).cell_faces(k) == old(self).cell_faces(k),
    {
        let ghost prev = *self;
        self.all_faces = Ghost(self.all_faces@.push(face));
        self.face_count = self.face_count + 1;
        assert forall|i: int, j: int|
            0 <= i < self.nodes@.len() && 0 <= j < self.nodes@[i].faces@.len()
                implies self.all_faces@.contains(#[trigger] self.nodes@[i].faces@[j]) by {
            let k = choose|k: int|
                0 <= k < prev.all_faces@.len() && prev.all_faces@[k] == self.nodes@[i].faces@[j];
            assert(self.all_faces@[k] == prev.all_faces@[k]);
        }
        assert(self.all_faces@.last() == face);
        let corners = face.aabb.get_corners();
        let mut nodes_added: Vec<Point3> = Vec::new();
        let mut i: usize = 0;
        while i < 8
            invariant
                0 <= i <= 8,
                self.wf_core(),
                self.all_faces@ == prev.all_faces@.push(face),
                self.grows_from(&prev),
                face.wf(),
                face.in_range(),
                fits_cell(face, self.node_size as int),
                corners@.len() == 8,
                forall|c: int|
                    0 <= c < 8 ==> corners@[c]@ == corner(face.aabb.min@, face.aabb.max@, c),
                forall|c: int|
                    0 <= c < i ==> self.registered_at(
                        face,
                        #[trigger] corner_cell(face, c, self.node_size as int),
                    ),
                forall|q: int|
                    0 <= q < nodes_added@.len() ==> self.registered_at(
                        face,
                        #[trigger] nodes_added@[q]@,
                    ),
                forall|k: V3|
                    #[trigger] key_listed(nodes_added@, k) ==> self.has_cell(k) && self.cell_faces(k)
                        == prev.cell_faces(k).push(face),
                forall|k: V3|
                    !key_listed(nodes_added@, k) ==> #[trigger] self.has_cell(k) == prev.has_cell(k)
                        && self.cell_faces(k) == prev.cell_faces(k),
                forall|q: int|
                    0 <= q < nodes_added@.len() ==> exists|c: int|
                        0 <= c < i && corner_cell(face, c, self.node_size as int) == (
                        #[trigger] nodes_added@[q])@,
                forall|c: int|
                    0 <= c < i ==> key_listed(nodes_added@, #[trigger] corner_cell(face, c, self.node_size as int)),
            decreases 8 - i,
        {
            let ghost before = *self;
            let ghost added_before = nodes_added@;
            proof {
                let n = self.all_faces@.len() - 1;
                assert(self.all_faces@[n] == face);
                assert(self.all_faces@.contains(face));
                assert(face.aabb.min.in_range() && face.aabb.max.in_range());
                assert(corners@[i as int]@ == corner(face.aabb.min@, face.aabb.max@, i as int));
            }
            self.add_face_for_point_into_top_level_node(&face, &corners[i], &mut nodes_added);
            assert forall|c: int| 0 <= c < i + 1 implies self.registered_at(
                face,
                #[trigger] corner_cell(face, c, self.node_size as int),
            ) by {
                if c < i {
                    self.lemma_grows_registered(&before, face, corner_cell(face, c, self.node_size as int));
                }
            }
            proof {
                let sz = self.node_size as int;
                let key = corner_cell(face, i as int, sz);
                assert(cell_point(corners@[i as int]@, sz) == key);
                assert forall|k: V3| #[trigger] key_listed(nodes_added@, k) implies self.has_cell(k)
                    && self.cell_faces(k) == prev.cell_faces(k).push(face) by {
                    if k != key {
                        let q = choose|q: int| 0 <= q < nodes_added@.len() && (#[trigger] nodes_added@[q])@ == k;
                        if q < added_before.len() {
                            assert(added_before[q] == nodes_added@[q]);
                            assert(key_listed(added_before, k));
                        } else {
                            assert(nodes_added@[q] == nodes_added@.last());
                        }
                    }
                }
                assert forall|k: V3| !key_listed(nodes_added@, k) implies #[trigger] self.has_cell(k)
                    == prev.has_cell(k) && self.cell_faces(k) == prev.cell_faces(k) by {
                    if key_listed(added_before, k) {
                        let q = choose|q: int| 0 <= q < added_before.len() && (#[trigger] added_before[q])@ == k;
                        assert(nodes_added@[q] == added_before[q]);
                    }
                    if k == key {
                        if !key_listed(added_before, key) {
                            assert(nodes_added@[nodes_added@.len() - 1]@ == key);
                        }
                    }
                }
                assert forall|q: int| 0 <= q < nodes_added@.len() implies exists|c: int|
                    0 <= c < i + 1 && corner_cell(face, c, sz) == (#[trigger] nodes_added@[q])@ by {
                    if q < added_before.len() {
                        assert(added_before[q] == nodes_added@[q]);
                        let c = choose|c: int| 0 <= c < i && corner_cell(face, c, sz) == (#[trigger] added_before[q])@;
                        assert(corner_cell(face, c, sz) == nodes_added@[q]@);
                    } else {
                        assert(corner_cell(face, i as int, sz) == nodes_added@[q]@);
                    }
                }
                assert forall|c: int| 0 <= c < i + 1 implies key_listed(nodes_added@, #[trigger] corner_cell(face, c, sz)) by {
                    if c < i {
                        let q = choose|q: int| 0 <= q < added_before.len() && (#[trigger] added_before[q])@ == corner_cell(face, c, sz);
                        assert(nodes_added@[q] == added_before[q]);
                    } else if !key_listed(added_before, key) {
                        assert(nodes_added@[nodes_added@.len() - 1]@ == key);
                    }
                }
            }
            i = i + 1;
        }
        proof {
            let sz = self.node_size as int;
            assert forall|k: V3| touches(face, k, sz) == key_listed(nodes_added@, k) by {
                if touches(face, k, sz) {
                    let c = choose|c: int| 0 <= c < 8 && corner_cell(face, c, sz) == k;
                    assert(key_listed(nodes_added@, corner_cell(face, c, sz)));
                }
                if key_listed(nodes_added@, k) {
                    let q = choose|q: int| 0 <= q < nodes_added@.len() && (#[trigger] nodes_added@[q])@ == k;
                    let c = choose|c: int| 0 <= c < 8 && corner_cell(face, c, sz) == (#[trigger] nodes_added@[q])@;
                    assert(corner_cell(face, c, sz) == k);
                }
            }
        }
        assert forall|k: int| 0 <= k < self.all_faces@.len() implies self.face_registered(
            #[trigger] self.all_faces@[k],
        ) by {
            if k < prev.all_faces@.len() {
                assert(self.all_faces@[k] == prev.all_faces@[k]);
                self.lemma_grows_face_registered(&prev, prev.all_faces@[k]);
            }
        }
    }

    /// Takes in a triangle list of world-space vertices, each three in a row
    /// making one face. Nothing is taken when the count is not a multiple of
    /// three, or when some face's box is longer than a cell on some axis.
    pub fn add_mesh(&mut self, vertices: &Vec<Point3>) -> (r: Result<(), WorldError>)
        requires
            old(self).wf(),
            forall|i: int| 0 <= i < vertices@.len() ==> (#[trigger] vertices@[i]).in_range(),
            old(self).faces().len() + vertices@.len() / 3 <= usize::MAX,
        ensures
            final(self).wf(),
            final(self).size() == old(self).size(),
            vertices@.len() % 3 != 0 ==> r == Err::<(), WorldError>(WorldError::InvalidGeometry),
            vertices@.len() % 3 == 0 && (exists|t: int|
                0 <= t < vertices@.len() / 3 && !fits_cell(
                    #[trigger] mesh_faces(vertices@)[t],
                    old(self).size(),
                )) ==> r == Err::<(), WorldError>(WorldError::OversizedGeometry),
            vertices@.len() % 3 == 0 && (forall|t: int|
                0 <= t < vertices@.len() / 3 ==> fits_cell(
                    #[trigger] mesh_faces(vertices@)[t],
                    old(self).size(),
                )) ==> r == Ok::<(), WorldError>(()),
            r is Ok ==> final(self).faces() == old(self).faces() + mesh_faces(vertices@),
            r is Ok ==> forall|k: V3|
                #[trigger] final(self).cell_faces(k) == old(self).cell_faces(k) + cell_additions(
                    mesh_faces(vertices@),
                    k,
                    old(self).size(),
                ) && final(self).has_cell(k) == (old(self).has_cell(k) || cell_additions(
                    mesh_faces(vertices@),
                    k,
                    old(self).size(),
                ).len() > 0),
            r is Err ==> final(self).faces() == old(self).faces(),
            r is Err ==> forall|k: V3|
                #[trigger] final(self).cell_faces(k) == old(self).cell_faces(k) && final(self).has_cell(k)
                    == old(self).has_cell(k),
    {
        let n = vertices.len();
        if n % 3 != 0 {
            return Err(WorldError::InvalidGeometry);
        }
        let ghost mesh = mesh_faces(vertices@);
        let mut faces: Vec<Face> = Vec::new();
        let mut idx: usize = 0;
        while idx < n
            invariant
                n == vertices@.len(),
                n % 3 == 0,
                idx % 3 == 0,
                idx <= n,
                mesh == mesh_faces(vertices@),
                faces@.len() == idx / 3,
                16 <= self.node_size <= 8192,
                self.wf(),
                self.all_faces@ == old(self).all_faces@,
                self.nodes@ == old(self).nodes@,
                self.node_size == old(self).node_size,
                forall|t: int| 0 <= t < idx / 3 ==> #[trigger] faces@[t] == mesh[t],
                forall|t: int| 0 <= t < idx / 3 ==> fits_cell(#[trigger] mesh[t], self.node_size as int),
                forall|i: int| 0 <= i < vertices@.len() ==> (#[trigger] vertices@[i]).in_range(),
            decreases n - idx,
        {
            let face = Face::new(vertices[idx], vertices[idx + 1], vertices[idx + 2]);
            assert(face == mesh[idx as int / 3]);
            let s = self.node_size;
            let size = face.aabb.max.x - face.aabb.min.x;
            let size = max_i64(size, max_i64(face.aabb.max.y - face.aabb.min.y, face.aabb.max.z - face.aabb.min.z));
            if size > s {
                return Err(WorldError::OversizedGeometry);
            }
            faces.push(face);
            idx = idx + 3;
        }
        let ghost prev = *self;
        let mut t: usize = 0;
        while t < faces.len()
            invariant
                t <= faces@.len(),
                faces@.len() == mesh.len(),
                forall|k: int| 0 <= k < faces@.len() ==> #[trigger] faces@[k] == mesh[k],
                forall|k: int| 0 <= k < mesh.len() ==> fits_cell(#[trigger] mesh[k], self.node_size as int),
                forall|k: int| 0 <= k < mesh.len() ==> (#[trigger] mesh[k]).wf() && mesh[k].in_range(),
                self.wf(),
                self.node_size == prev.node_size,
                self.all_faces@ == prev.all_faces@ + mesh.subrange(0, t as int),
                prev.all_faces@.len() + mesh.len() <= usize::MAX,
                forall|k: V3|
                    #[trigger] self.cell_faces(k) == prev.cell_faces(k) + cell_additions(
                        mesh.subrange(0, t as int),
                        k,
                        prev.node_size as int,
                    ) && self.has_cell(k) == (prev.has_cell(k) || cell_additions(
                        mesh.subrange(0, t as int),
                        k,
                        prev.node_size as int,
                    ).len() > 0),
            decreases faces@.len() - t,
        {
            let ghost before = *self;
            self.add_face(faces[t]);
            proof {
                let sz = prev.node_size as int;
                let f = mesh[t as int];
                let sub0 = mesh.subrange(0, t as int);
                let sub1 = mesh.subrange(0, t + 1);
                assert(sub1 == sub0.push(f));
                assert(sub1.drop_last() == sub0);
                assert forall|k: V3| #[trigger] self.cell_faces(k) == prev.cell_faces(k) + cell_additions(
                    sub1,
                    k,
                    sz,
                ) && self.has_cell(k) == (prev.has_cell(k) || cell_additions(sub1, k, sz).len() > 0) by {
                    let a0 = cell_additions(sub0, k, sz);
                    assert(before.cell_faces(k) == prev.cell_faces(k) + a0);
                    if touches(f, k, sz) {
                        assert(cell_additions(sub1, k, sz) == a0.push(f));
                        assert((prev.cell_faces(k) + a0).push(f) == prev.cell_faces(k) + a0.push(f));
                    } else {
                        assert(cell_additions(sub1, k, sz) == a0);
                    }
                }
            }
            t = t + 1;
        }
        assert(mesh.subrange(0, mesh.len() as int) == mesh);
        assert forall|k: V3| #[trigger] self.cell_faces(k) == old(self).cell_faces(k) + cell_additions(
            mesh_faces(vertices@),
            k,
            old(self).size(),
        ) && self.has_cell(k) == (old(self).has_cell(k) || cell_additions(
            mesh_faces(vertices@),
            k,
            old(self).size(),
        ).len() > 0) by {
            assert(prev.cell_faces(k) == old(self).cell_faces(k));
            assert(prev.has_cell(k) == old(self).has_cell(k));
            assert(self.cell_faces(k) == prev.cell_faces(k) + cell_additions(
                mesh.subrange(0, mesh.len() as int),
                k,
                prev.node_size as int,
            ));
        }
        Ok(())
    }

    /// The nearest place where the ray from `position` along `direction` meets a
    /// face of the world, within `distance` lengths of `direction`; `Nothing`
    /// where it meets none. On a common ray the nearest point is the one with the
    /// least parameter. Only the cells that meet the box of the cells of the ray's
    /// two ends are searched, which loses no hit. The arithmetic is exact, so a
    /// direction with zero components needs no substitute.
    pub fn test_ray(&self, position: &Point3, direction: &Point3, distance: i64) -> (r:
        CollisionResult)
        requires
            self.wf(),
            position.in_range(),
            direction.in_range(),
            -COORD_LIMIT <= distance <= COORD_LIMIT,
        ensures
            match r {
                CollisionResult::Nothing => forall|k: int|
                    0 <= k < self.faces().len() ==> !(#[trigger] self.faces()[k]).ray_hits(
                        position@,
                        direction@,
                        distance as int,
                    ),
                CollisionResult::Collides(h) => {
                    &&& exists|k: int|
                        0 <= k < self.faces().len() && (#[trigger] self.faces()[k]).ray_hits(
                            position@,
                            direction@,
                            distance as int,
                        ) && self.faces()[k].is_hit(h, position@, direction@)
                    &&& forall|k: int|
                        0 <= k < self.faces().len() && (#[trigger] self.faces()[k]).ray_hits(
                            position@,
                            direction@,
                            distance as int,
                        ) ==> frac_le(
                            h.t_num as int,
                            h.denom as int,
                            self.faces()[k].hit_params(position@, direction@).3,
                            self.faces()[k].hit_params(position@, direction@).0,
                        )
                },
            },
    {
        let ghost o = position@;
        let ghost d = direction@;
        let ghost m = distance as int;
        let ghost sz = self.node_size as int;
        proof {
            crate::geometry::lemma_mul_bound(d.0, m, COORD_LIMIT as int, COORD_LIMIT as int);
            crate::geometry::lemma_mul_bound(d.1, m, COORD_LIMIT as int, COORD_LIMIT as int);
            crate::geometry::lemma_mul_bound(d.2, m, COORD_LIMIT as int, COORD_LIMIT as int);
        }
        let end = Point3::new(
            position.x + direction.x * distance,
            position.y + direction.y * distance,
            position.z + direction.z * distance,
        );
        let start_cell = self.point_to_top_level_node_coord(position);
        let end_cell = self.point_to_top_level_node_coord(&end);
        let ray_aabb = AABB::new(
            Point3::new(
                min_i64(start_cell.x, end_cell.x),
                min_i64(start_cell.y, end_cell.y),
                min_i64(start_cell.z, end_cell.z),
            ),
            Point3::new(
                max_i64(start_cell.x, end_cell.x),
                max_i64(start_cell.y, end_cell.y),
                max_i64(start_cell.z, end_cell.z),
            ),
        );
        assert(ray_aabb.min@ == ray_box_lo(o, d, m, sz));
        assert(ray_aabb.max@ == ray_box_hi(o, d, m, sz));
        let mut best: Option<RayHit> = None;
        let mut i: usize = 0;
        while i < self.nodes.len()
            invariant
                self.wf(),
                i <= self.nodes@.len(),
                position@ == o,
                direction@ == d,
                distance as int == m,
                position.in_range(),
                direction.in_range(),
                -COORD_LIMIT <= distance <= COORD_LIMIT,
                best_found(self.all_faces@, best, o, d, m),
                forall|pi: int, j: int|
                    0 <= pi < i && 0 <= j < self.nodes@[pi].faces@.len()
                        && self.nodes@[pi].aabb.intersects_spec(&ray_aabb) && (#[trigger] self.nodes@[pi].faces@[j]).ray_hits(o, d, m)
                        ==> best_beats(best, self.nodes@[pi].faces@[j], o, d),
            decreases self.nodes@.len() - i,
        {
            let node = &self.nodes[i];
            if node.aabb.intersects(&ray_aabb) {
                let mut j: usize = 0;
                while j < node.faces.len()
                    invariant
                        self.wf(),
                        i < self.nodes@.len(),
                        *node == self.nodes@[i as int],
                        j <= node.faces@.len(),
                        position@ == o,
                        direction@ == d,
                        distance as int == m,
                        position.in_range(),
                        direction.in_range(),
                        -COORD_LIMIT <= distance <= COORD_LIMIT,
                        best_found(self.all_faces@, best, o, d, m),
                        forall|pi: int, pj: int|
                            0 <= pi < i && 0 <= pj < self.nodes@[pi].faces@.len()
                                && self.nodes@[pi].aabb.intersects_spec(&ray_aabb) && (#[trigger] self.nodes@[pi].faces@[pj]).ray_hits(o, d, m)
                                ==> best_beats(best, self.nodes@[pi].faces@[pj], o, d),
                        forall|pj: int|
                            0 <= pj < j && (#[trigger] node.faces@[pj]).ray_hits(o, d, m)
                                ==> best_beats(best, node.faces@[pj], o, d),
                    decreases node.faces@.len() - j,
                {
                    let face = &node.faces[j];
                    proof {
                        assert(self.all_faces@.contains(*face));
                        let k = choose|k: int| 0 <= k < self.all_faces@.len() && self.all_faces@[k] == *face;
                        assert(self.face_registered(self.all_faces@[k]));
                    }
                    let ghost best0 = best;
                    match face.test_ray(position, direction, distance) {
                        CollisionResult::Collides(hit) => {
                            match best {
                                Some(old_hit) => {
                                    proof {
                                        lemma_frac_products(hit.t_num as int, hit.denom as int, old_hit.t_num as int, old_hit.denom as int);
                                    }
                                    if hit.t_num * old_hit.denom < old_hit.t_num * hit.denom {
                                        best = Some(hit);
                                    }
                                },
                                None => {
                                    best = Some(hit);
                                },
                            }
                            proof {
                                lemma_best_update(best0, best, hit, *face, o, d, m);
                            }
                        },
                        CollisionResult::Nothing => {},
                    }
                    j = j + 1;
                }
            }
            i = i + 1;
        }
        proof {
            assert forall|k: int|
                0 <= k < self.all_faces@.len() && (#[trigger] self.all_faces@[k]).ray_hits(o, d, m)
                    implies best_beats(best, self.all_faces@[k], o, d) by {
                let f = self.all_faces@[k];
                assert(self.face_registered(f));
                lemma_hit_cell(f, o, d, m, sz);
                let c = choose|c: int|
                    0 <= c < 8 && cell_meets(
                        #[trigger] corner_cell(f, c, sz),
                        sz,
                        ray_box_lo(o, d, m, sz),
                        ray_box_hi(o, d, m, sz),
                    );
                assert(self.registered_at(f, corner_cell(f, c, sz)));
                let ni = choose|ni: int|
                    0 <= ni < self.nodes@.len() && (#[trigger] self.nodes@[ni]).key@ == corner_cell(f, c, sz)
                        && self.nodes@[ni].faces@.contains(f);
                assert(self.node_wf(self.nodes@[ni]));
                assert(self.nodes@[ni].aabb.intersects_spec(&ray_aabb));
                let pj = choose|pj: int| 0 <= pj < self.nodes@[ni].faces@.len() && self.nodes@[ni].faces@[pj] == f;
                assert(self.nodes@[ni].faces@[pj].ray_hits(o, d, m));
            }
        }
        match best {
            Some(hit) => CollisionResult::Collides(hit),
            None => CollisionResult::Nothing,
        }
    }

    /// How many faces are registered in the cell with lower corner `key`.
    pub fn cell_face_count(&self, key: &Point3) -> (r: usize)
        requires
            self.wf(),
        ensures
            r == self.cell_faces(key@).len(),
    {
        let lim = COORD_LIMIT;
        if key.x < -2 * lim || key.x > lim || key.y < -2 * lim || key.y > lim || key.z < -2 * lim
            || key.z > lim {
            proof {
                if self.has_cell(key@) {
                    let i = choose|i: int| 0 <= i < self.nodes@.len() && (#[trigger] self.nodes@[i]).key@ == key@;
                    assert(self.node_wf(self.nodes@[i]));
                }
            }
            return 0;
        }
        match self.find_node(key) {
            Some(i) => {
                proof {
                    self.lemma_cell_at(i as int);
                }
                self.nodes[i].faces.len()
            },
            None => 0,
        }
    }

    /// How many faces the world holds.
    pub fn face_count(&self) -> (r: usize)
        requires
            self.wf(),
        ensures
            r == self.faces().len(),
    {
        self.face_count
    }

}

/// A kept hit, if any, is the hit of some face of `faces`.
pub open spec fn best_found(faces: Seq<Face>, best: Option<RayHit>, o: V3, d: V3, m: int) -> bool {
    match best {
        Some(h) => {
            &&& exists|k: int|
                0 <= k < faces.len() && (#[trigger] faces[k]).ray_hits(o, d, m) && faces[k].is_hit(h, o, d)
            &&& 0 < h.denom <= det_bound()
            &&& 0 < h.t_num <= t_bound()
        },
        None => true,
    }
}

/// A hit is kept that is no farther along the ray than where `f` is hit.
pub open spec fn best_beats(best: Option<RayHit>, f: Face, o: V3, d: V3) -> bool {
    match best {
        Some(h) => frac_le(h.t_num as int, h.denom as int, f.hit_params(o, d).3, f.hit_params(o, d).0),
        None => false,
    }
}

proof fn lemma_frac_products(t1: int, d1: int, t2: int, d2: int)
    requires
        0 < d1 <= det_bound(),
        0 < t1 <= t_bound(),
        0 < d2 <= det_bound(),
        0 < t2 <= t_bound(),
    ensures
        0 < t1 * d2 <= 0x100_0000_0000_0000_0000_0000_0000_0000,
        0 < t2 * d1 <= 0x100_0000_0000_0000_0000_0000_0000_0000,
{
    assert(t_bound() == 864691128455135232int);
    assert(det_bound() == 432345564227567616int);
    crate::geometry::lemma_mul_bound(t1, d2, 864691128455135232int, 432345564227567616int);
    crate::geometry::lemma_mul_bound(t2, d1, 864691128455135232int, 432345564227567616int);
    assert(t1 * d2 > 0) by (nonlinear_arith)
        requires
            t1 > 0,
            d2 > 0,
    ;
    assert(t2 * d1 > 0) by (nonlinear_arith)
        requires
            t2 > 0,
            d1 > 0,
    ;
}

/// `a/b <= c/d <= e/f` gives `a/b <= e/f` for positive denominators.
proof fn lemma_frac_trans(a: int, b: int, c: int, d: int, e: int, f: int)
    requires
        b > 0,
        d > 0,
        f > 0,
        a * d <= c * b,
        c * f <= e * d,
    ensures
        a * f <= e * b,
{
    assert(a * d * f <= c * b * f) by (nonlinear_arith)
        requires
            a * d <= c * b,
            f > 0,
    ;
    assert(c * f * b <= e * d * b) by (nonlinear_arith)
        requires
            c * f <= e * d,
            b > 0,
    ;
    assert(c * b * f == c * f * b) by (nonlinear_arith);
    assert(d * (a * f) <= d * (e * b)) by (nonlinear_arith)
        requires
            a * d * f <= e * d * b,
    ;
    assert(a * f <= e * b) by (nonlinear_arith)
        requires
            d * (a * f) <= d * (e * b),
            d > 0,
    ;
}

/// Keeping the nearer of the kept hit and a new hit of `f` keeps a hit that
/// beats both.
proof fn lemma_best_update(best0: Option<RayHit>, best: Option<RayHit>, hit: RayHit, f: Face, o: V3, d: V3, m: int)
    requires
        f.ray_hits(o, d, m),
        f.is_hit(hit, o, d),
        0 < hit.denom,
        match best0 {
            Some(h0) => 0 < h0.denom && match best {
                Some(h) => (h == hit && hit.t_num * h0.denom < h0.t_num * hit.denom) || (h == h0
                    && !(hit.t_num * h0.denom < h0.t_num * hit.denom)),
                None => false,
            },
            None => best == Some(hit),
        },
    ensures
        best_beats(best, f, o, d),
        forall|g: Face|
            g.hit_params(o, d).0 > 0 && best_beats(best0, g, o, d) ==> #[trigger] best_beats(
                best,
                g,
                o,
                d,
            ),
{
    assert forall|g: Face| g.hit_params(o, d).0 > 0 && best_beats(best0, g, o, d) implies #[trigger] best_beats(
        best,
        g,
        o,
        d,
    ) by {
        match best0 {
            Some(h0) => {
                let h = best.unwrap();
                if h == hit {
                    let k = g.hit_params(o, d);
                    lemma_frac_trans(hit.t_num as int, hit.denom as int, h0.t_num as int, h0.denom as int, k.3, k.0);
                }
            },
            None => {},
        }
    }
}

/// A cell key within the range of cells that faces of the coordinate range
/// can touch.
pub open spec fn key_in_grid(k: V3) -> bool {
    &&& -2 * COORD_LIMIT <= k.0 <= COORD_LIMIT
    &&& -2 * COORD_LIMIT <= k.1 <= COORD_LIMIT
    &&& -2 * COORD_LIMIT <= k.2 <= COORD_LIMIT
}

/// A cell key packed into 60 bits: each coordinate moved up by `2^19` into
/// 20 bits.
pub open spec fn cell_code(k: V3) -> int {
    (k.0 + 0x8_0000) * 0x100_0000_0000 + (k.1 + 0x8_0000) * 0x10_0000 + (k.2 + 0x8_0000)
}

proof fn lemma_cell_code_injective(a: V3, b: V3)
    requires
        key_in_grid(a),
        key_in_grid(b),
        cell_code(a) == cell_code(b),
    ensures
        a == b,
{
    let (a0, a1, a2) = (a.0 + 0x8_0000, a.1 + 0x8_0000, a.2 + 0x8_0000);
    let (b0, b1, b2) = (b.0 + 0x8_0000, b.1 + 0x8_0000, b.2 + 0x8_0000);
    assert(0 <= a1 < 0x10_0000 && 0 <= b1 < 0x10_0000 && 0 <= a2 < 0x10_0000 && 0 <= b2 < 0x10_0000);
    assert(a0 == b0);
    assert(a1 == b1);
}

fn code_of(key: &Point3) -> (r: u64)
    requires
        key_in_grid(key@),
    ensures
        r == cell_code(key@),
{
    let x = (key.x + 0x8_0000) as u64;
    let y = (key.y + 0x8_0000) as u64;
    let z = (key.z + 0x8_0000) as u64;
    x * 0x100_0000_0000 + y * 0x10_0000 + z
}

/// The faces of `fs` that a cell with lower corner `k` receives, in order:
/// those with a corner of their box in that cell, each once.
pub open spec fn cell_additions(fs: Seq<Face>, k: V3, s: int) -> Seq<Face>
    decreases fs.len(),
{
    if fs.len() == 0 {
        Seq::empty()
    } else {
        let r = cell_additions(fs.drop_last(), k, s);
        if touches(fs.last(), k, s) {
            r.push(fs.last())
        } else {
            r
        }
    }
}

/// Some corner of the box of `f` lies in the cell with lower corner `k`.
pub open spec fn touches(f: Face, k: V3, s: int) -> bool {
    exists|c: int| 0 <= c < 8 && #[trigger] corner_cell(f, c, s) == k
}

/// Some entry of `keys` is the point `k`.
pub open spec fn key_listed(keys: Seq<Point3>, k: V3) -> bool {
    exists|q: int| 0 <= q < keys.len() && (#[trigger] keys[q])@ == k
}

/// `floor(x / s) * s`.
fn cell_of(x: i64, s: i64) -> (r: i64)
    requires
        16 <= s <= 8192,
        -0x100_0000_0000 <= x <= 0x100_0000_0000,
    ensures
        r == cell(x as int, s as int),
{
    proof {
        lemma_cell_bounds(x as int, s as int);
    }
    match x.checked_rem_euclid(s) {
        Some(m) => x - m,
        None => x,
    }
}

/// Whether `key` is one of `keys`.
fn contains_key(keys: &Vec<Point3>, key: &Point3) -> (r: bool)
    ensures
        r == exists|q: int| 0 <= q < keys@.len() && keys@[q] == *key,
{
    let mut i: usize = 0;
    while i < keys.len()
        invariant
            i <= keys@.len(),
            forall|q: int| 0 <= q < i ==> keys@[q] != *key,
        decreases keys@.len() - i,
    {
        if keys[i] == *key {
            return true;
        }
        i = i + 1;
    }
    false
}

} // verus!
