use vstd::prelude::*;
use crate::shape::{cell_offset, decode, in_grid, lemma_decode, DiscreteVoxelShape};
use crate::voxel::{grid_size, Axis, VoxelShape};

verus! {

/// Movement whose magnitude is below this many units counts as settled.
pub const EPSILON: i64 = 1;

/// An axis-aligned box in fixed-point units.
#[derive(Clone, Copy, Debug, PartialEq, Eq, Structural)]
pub struct Aabb {
    pub min_x: i64,
    pub min_y: i64,
    pub min_z: i64,
    pub max_x: i64,
    pub max_y: i64,
    pub max_z: i64,
}

/// Collision resolution of a moving box against voxel shapes.
pub struct Shapes {}

pub open spec fn box_min(b: Aabb, axis: Axis) -> int {
    match axis {
        Axis::X => b.min_x as int,
        Axis::Y => b.min_y as int,
        Axis::Z => b.min_z as int,
    }
}

pub open spec fn box_max(b: Aabb, axis: Axis) -> int {
    match axis {
        Axis::X => b.max_x as int,
        Axis::Y => b.max_y as int,
        Axis::Z => b.max_z as int,
    }
}

/// The index of cell `(i, j, k)` along an axis.
pub open spec fn along(axis: Axis, i: int, j: int, k: int) -> int {
    match axis {
        Axis::X => i,
        Axis::Y => j,
        Axis::Z => k,
    }
}

/// Cell `c` of the shape spans an open interval that meets the box's on this axis.
pub open spec fn overlaps(s: VoxelShape, b: Axis, bx: Aabb, c: int) -> bool {
    s.coords(b)[c] < box_max(bx, b) && s.coords(b)[c + 1] > box_min(bx, b)
}

/// Cell `(i, j, k)` meets the box on both axes other than `axis`.
pub open spec fn beside(s: VoxelShape, bx: Aabb, axis: Axis, i: int, j: int, k: int) -> bool {
    match axis {
        Axis::X => overlaps(s, Axis::Y, bx, j) && overlaps(s, Axis::Z, bx, k),
        Axis::Y => overlaps(s, Axis::X, bx, i) && overlaps(s, Axis::Z, bx, k),
        Axis::Z => overlaps(s, Axis::X, bx, i) && overlaps(s, Axis::Y, bx, j),
    }
}

/// Cell `(i, j, k)` is occupied, in the box's path, and wholly ahead of it in the
/// direction of `forward` (positive) or backward (negative).
pub open spec fn blocks(s: VoxelShape, bx: Aabb, axis: Axis, forward: bool, i: int, j: int, k: int) -> bool {
    &&& s.grid().filled(i, j, k)
    &&& beside(s, bx, axis, i, j, k)
    &&& if forward {
        s.coords(axis)[along(axis, i, j, k)] >= box_max(bx, axis)
    } else {
        s.coords(axis)[along(axis, i, j, k) + 1] <= box_min(bx, axis)
    }
}

/// How far the box may move along `axis` before it touches cell `(i, j, k)`.
pub open spec fn gap(s: VoxelShape, bx: Aabb, axis: Axis, forward: bool, i: int, j: int, k: int) -> int {
    if forward {
        s.coords(axis)[along(axis, i, j, k)] - box_max(bx, axis)
    } else {
        s.coords(axis)[along(axis, i, j, k) + 1] - box_min(bx, axis)
    }
}

pub open spec fn cell_count(g: DiscreteVoxelShape) -> nat {
    g.spec_x_size() * g.spec_y_size() * g.spec_z_size()
}

/// The movement `d` reduced by the first `n` cells of the shape in storage order.
pub open spec fn sweep(s: VoxelShape, bx: Aabb, axis: Axis, d: int, n: nat) -> int
    decreases n,
{
    if n == 0 {
        d
    } else {
        let p = sweep(s, bx, axis, d, (n - 1) as nat);
        let c = decode(s.grid().spec_y_size(), s.grid().spec_z_size(), n - 1);
        let forward = d > 0;
        if blocks(s, bx, axis, forward, c.0, c.1, c.2) {
            let g = gap(s, bx, axis, forward, c.0, c.1, c.2);
            if forward && g < p { g } else if !forward && g > p { g } else { p }
        } else {
            p
        }
    }
}

/// The largest part of the movement `d` along `axis` that one shape lets the box make.
pub open spec fn clamp(s: VoxelShape, bx: Aabb, axis: Axis, d: int) -> int {
    if d == 0 { 0 } else { sweep(s, bx, axis, d, cell_count(s.grid())) }
}

/// `r` is the movement `d` cut back to the nearest blocking cell: no blocking cell
/// lies closer, and `r` is `d` itself or the distance to one of them.
pub open spec fn nearest_stop(s: VoxelShape, bx: Aabb, axis: Axis, d: int, r: int) -> bool {
    if d > 0 {
        &&& r <= d
        &&& forall|i: int, j: int, k: int| #[trigger] blocks(s, bx, axis, true, i, j, k)
            ==> r <= gap(s, bx, axis, true, i, j, k)
        &&& (r == d || exists|i: int, j: int, k: int| #[trigger] blocks(s, bx, axis, true, i, j, k)
            && r == gap(s, bx, axis, true, i, j, k))
    } else if d < 0 {
        &&& r >= d
        &&& forall|i: int, j: int, k: int| #[trigger] blocks(s, bx, axis, false, i, j, k)
            ==> r >= gap(s, bx, axis, false, i, j, k)
        &&& (r == d || exists|i: int, j: int, k: int| #[trigger] blocks(s, bx, axis, false, i, j, k)
            && r == gap(s, bx, axis, false, i, j, k))
    } else {
        r == 0
    }
}

/// A clamp keeps the sign of the movement and never lengthens it.
pub proof fn lemma_sweep_bounds(s: VoxelShape, bx: Aabb, axis: Axis, d: int, n: nat)
    ensures
        d > 0 ==> 0 <= sweep(s, bx, axis, d, n) <= d,
        d < 0 ==> d <= sweep(s, bx, axis, d, n) <= 0,
    decreases n,
{
    if n > 0 {
        lemma_sweep_bounds(s, bx, axis, d, (n - 1) as nat);
    }
}

/// A longer movement in the same direction is never clamped to a shorter one.
pub proof fn lemma_sweep_monotonic(s: VoxelShape, bx: Aabb, axis: Axis, d1: int, d2: int, n: nat)
    requires
        (0 < d1 <= d2) || (d2 <= d1 < 0),
    ensures
        0 < d1 ==> sweep(s, bx, axis, d1, n) <= sweep(s, bx, axis, d2, n),
        d1 < 0 ==> sweep(s, bx, axis, d2, n) <= sweep(s, bx, axis, d1, n),
    decreases n,
{
    if n > 0 {
        lemma_sweep_monotonic(s, bx, axis, d1, d2, (n - 1) as nat);
    }
}

/// The sweep over every cell is the nearest stop.
pub proof fn lemma_clamp_nearest(s: VoxelShape, bx: Aabb, axis: Axis, d: int)
    requires
        s.wf(),
    ensures
        nearest_stop(s, bx, axis, d, clamp(s, bx, axis, d)),
{
    if d != 0 {
        let g = s.grid();
        let total = cell_count(g);
        let forward = d > 0;
        lemma_sweep_prefix(s, bx, axis, d, total);
        let r = clamp(s, bx, axis, d);
        assert forall|i: int, j: int, k: int| #[trigger] blocks(s, bx, axis, forward, i, j, k)
            implies (forward ==> r <= gap(s, bx, axis, forward, i, j, k))
                && (!forward ==> r >= gap(s, bx, axis, forward, i, j, k)) by {
            g.lemma_filled_in_grid(i, j, k);
            let m = cell_offset(g.spec_y_size(), g.spec_z_size(), i, j, k);
            crate::shape::lemma_offset_in_range(g.spec_x_size(), g.spec_y_size(), g.spec_z_size(), i, j, k);
            lemma_decode(g.spec_x_size(), g.spec_y_size(), g.spec_z_size(), m);
            let c = decode(g.spec_y_size(), g.spec_z_size(), m);
            crate::shape::lemma_offset_injective(g.spec_y_size(), g.spec_z_size(), c.0, c.1, c.2, i, j, k);
            assert(cell_blocks(s, bx, axis, d, m));
        }
        if r != d {
            let m = choose|m: int| 0 <= m < total && #[trigger] sweep_hit(s, bx, axis, d, m, r);
            lemma_decode(g.spec_x_size(), g.spec_y_size(), g.spec_z_size(), m);
            let c = decode(g.spec_y_size(), g.spec_z_size(), m);
            assert(blocks(s, bx, axis, forward, c.0, c.1, c.2));
        }
    }
}

pub open spec fn cell_blocks(s: VoxelShape, bx: Aabb, axis: Axis, d: int, m: int) -> bool {
    let c = decode(s.grid().spec_y_size(), s.grid().spec_z_size(), m);
    blocks(s, bx, axis, d > 0, c.0, c.1, c.2)
}

pub open spec fn cell_gap(s: VoxelShape, bx: Aabb, axis: Axis, d: int, m: int) -> int {
    let c = decode(s.grid().spec_y_size(), s.grid().spec_z_size(), m);
    gap(s, bx, axis, d > 0, c.0, c.1, c.2)
}

/// Storage cell `m` blocks the movement `d` at exactly distance `r`.
pub open spec fn sweep_hit(s: VoxelShape, bx: Aabb, axis: Axis, d: int, m: int, r: int) -> bool {
    let c = decode(s.grid().spec_y_size(), s.grid().spec_z_size(), m);
    blocks(s, bx, axis, d > 0, c.0, c.1, c.2) && r == gap(s, bx, axis, d > 0, c.0, c.1, c.2)
}

proof fn lemma_sweep_prefix(s: VoxelShape, bx: Aabb, axis: Axis, d: int, n: nat)
    requires
        d != 0,
    ensures
        ({
            let r = sweep(s, bx, axis, d, n);
            let ys = s.grid().spec_y_size();
            let zs = s.grid().spec_z_size();
            &&& d > 0 ==> r <= d
            &&& d < 0 ==> r >= d
            &&& forall|m: int| 0 <= m < n && #[trigger] cell_blocks(s, bx, axis, d, m) ==> {
                &&& d > 0 ==> r <= cell_gap(s, bx, axis, d, m)
                &&& d < 0 ==> r >= cell_gap(s, bx, axis, d, m)
            }
            &&& (r == d || exists|m: int| 0 <= m < n && #[trigger] sweep_hit(s, bx, axis, d, m, r))
        }),
    decreases n,
{
    if n > 0 {
        lemma_sweep_prefix(s, bx, axis, d, (n - 1) as nat);
        let r = sweep(s, bx, axis, d, n);
        let p = sweep(s, bx, axis, d, (n - 1) as nat);
        if r != p {
            assert(sweep_hit(s, bx, axis, d, n - 1, r));
        } else if r != d {
            let m = choose|m: int| 0 <= m < n - 1 && #[trigger] sweep_hit(s, bx, axis, d, m, p);
            assert(sweep_hit(s, bx, axis, d, m, r));
        }
    }
}

fn cell_beside(axis: Axis, bx: &Aabb, xs: &Vec<i64>, ys: &Vec<i64>, zs: &Vec<i64>, i: usize, j: usize, k: usize, s: Ghost<VoxelShape>) -> (r: bool)
    requires
        xs@ == s@.coords(Axis::X),
        ys@ == s@.coords(Axis::Y),
        zs@ == s@.coords(Axis::Z),
        i + 1 < xs@.len(),
        j + 1 < ys@.len(),
        k + 1 < zs@.len(),
    ensures
        r == beside(s@, *bx, axis, i as int, j as int, k as int),
{
    let (xl, yl, zl) = (xs.len(), ys.len(), zs.len());
    let ox = xs[i] < bx.max_x && xs[i + 1] > bx.min_x;
    let oy = ys[j] < bx.max_y && ys[j + 1] > bx.min_y;
    let oz = zs[k] < bx.max_z && zs[k + 1] > bx.min_z;
    match axis {
        Axis::X => oy && oz,
        Axis::Y => ox && oz,
        Axis::Z => ox && oy,
    }
}

impl VoxelShape {
    /// The largest part of the movement `d` along `axis` that this shape lets the
    /// box make: `d` cut back to the nearest occupied cell in the box's path.
    pub fn collide(&self, axis: Axis, bx: &Aabb, d: i64) -> (r: i64)
        requires
            self.wf(),
        ensures
            r == clamp(*self, *bx, axis, d as int),
            nearest_stop(*self, *bx, axis, d as int, r as int),
    {
        proof {
            lemma_clamp_nearest(*self, *bx, axis, d as int);
        }
        if d == 0 {
            return 0;
        }
        let g = self.shape();
        let xs = self.get_coords(Axis::X);
        let ys = self.get_coords(Axis::Y);
        let zs = self.get_coords(Axis::Z);
        let (lo, hi): (i64, i64) = match axis {
            Axis::X => (bx.min_x, bx.max_x),
            Axis::Y => (bx.min_y, bx.max_y),
            Axis::Z => (bx.min_z, bx.max_z),
        };
        let ysz = g.y_size() as usize;
        let zsz = g.z_size() as usize;
        let xsz = g.x_size() as usize;
        proof {
            g.lemma_cell_count_fits();
        }
        let total: usize = if ysz == 0 || zsz == 0 {
            assert(xsz * ysz * zsz == 0) by (nonlinear_arith)
                requires ysz == 0 || zsz == 0;
            0
        } else {
            assert(xsz * ysz <= xsz * ysz * zsz) by (nonlinear_arith)
                requires zsz >= 1;
            (xsz * ysz) * zsz
        };
        assert(total == cell_count(*g));
        let forward = d > 0;
        let mut r: i64 = d;
        let mut n: usize = 0;
        while n < total
            invariant
                self.wf(),
                *g == self.grid(),
                xs@ == self.coords(Axis::X),
                ys@ == self.coords(Axis::Y),
                zs@ == self.coords(Axis::Z),
                xsz == g.spec_x_size(),
                xsz <= u32::MAX,
                ysz <= u32::MAX,
                zsz <= u32::MAX,
                ysz == g.spec_y_size(),
                zsz == g.spec_z_size(),
                total == cell_count(self.grid()),
                forward == (d > 0),
                d != 0,
                lo == box_min(*bx, axis),
                hi == box_max(*bx, axis),
                n <= total,
                r == sweep(*self, *bx, axis, d as int, n as nat),
            decreases total - n,
        {
            proof {
                lemma_decode(g.spec_x_size(), g.spec_y_size(), g.spec_z_size(), n as int);
                lemma_sweep_bounds(*self, *bx, axis, d as int, n as nat);
            }
            let a = n / zsz;
            let i = a / ysz;
            let j = a % ysz;
            let k = n % zsz;
            assert((i as int, j as int, k as int) == decode(ysz as nat, zsz as nat, n as int));
            let ghost c3 = decode(ysz as nat, zsz as nat, n as int);
            assert(in_grid(g.spec_x_size(), g.spec_y_size(), g.spec_z_size(), c3.0, c3.1, c3.2));
            let full = g.is_full(i as u32, j as u32, k as u32);
            let near = cell_beside(axis, bx, &xs, &ys, &zs, i, j, k, Ghost(*self));
            if full && near {
                let c = match axis {
                    Axis::X => i,
                    Axis::Y => j,
                    Axis::Z => k,
                };
                let cs = match axis {
                    Axis::X => &xs,
                    Axis::Y => &ys,
                    Axis::Z => &zs,
                };
                if forward {
                    let face = cs[c];
                    if face >= hi {
                        let gp: i128 = face as i128 - hi as i128;
                        assert(blocks(*self, *bx, axis, forward, c3.0, c3.1, c3.2));
                        assert(gp == gap(*self, *bx, axis, forward, c3.0, c3.1, c3.2));
                        if gp < r as i128 {
                            r = gp as i64;
                        }
                    } else {
                        assert(!blocks(*self, *bx, axis, forward, c3.0, c3.1, c3.2));
                    }
                } else {
                    let face = cs[c + 1];
                    if face <= lo {
                        let gp: i128 = face as i128 - lo as i128;
                        assert(blocks(*self, *bx, axis, forward, c3.0, c3.1, c3.2));
                        assert(gp == gap(*self, *bx, axis, forward, c3.0, c3.1, c3.2));
                        if gp > r as i128 {
                            r = gp as i64;
                        }
                    } else {
                        assert(!blocks(*self, *bx, axis, forward, c3.0, c3.1, c3.2));
                    }
                }
            } else {
                assert(!blocks(*self, *bx, axis, forward, c3.0, c3.1, c3.2));
            }
            proof {
                assert(sweep(*self, *bx, axis, d as int, (n + 1) as nat) == {
                    let p = sweep(*self, *bx, axis, d as int, n as nat);
                    if blocks(*self, *bx, axis, forward, c3.0, c3.1, c3.2) {
                        let gg = gap(*self, *bx, axis, forward, c3.0, c3.1, c3.2);
                        if forward && gg < p { gg } else if !forward && gg > p { gg } else { p }
                    } else {
                        p
                    }
                });
            }
            n = n + 1;
        }
        r
    }
}

/// The movement `m` cut back by the first `n` shapes in turn; once its magnitude
/// falls below `EPSILON` it is settled at zero.
pub open spec fn resolve(shapes: Seq<VoxelShape>, bx: Aabb, axis: Axis, m: int, n: nat) -> int
    decreases n,
{
    if n == 0 {
        m
    } else {
        let p = resolve(shapes, bx, axis, m, (n - 1) as nat);
        if -EPSILON < p < EPSILON {
            0
        } else {
            clamp(shapes[n - 1], bx, axis, p)
        }
    }
}

pub open spec fn all_wf(shapes: Seq<VoxelShape>) -> bool {
    forall|i: int| 0 <= i < shapes.len() ==> #[trigger] shapes[i].wf()
}

proof fn lemma_resolve_settled(shapes: Seq<VoxelShape>, bx: Aabb, axis: Axis, m: int, k: nat, n: nat)
    requires
        k <= n,
        -EPSILON < resolve(shapes, bx, axis, m, k) < EPSILON,
    ensures
        n > k ==> resolve(shapes, bx, axis, m, n) == 0,
    decreases n - k,
{
    if n > k + 1 {
        lemma_resolve_settled(shapes, bx, axis, m, k, (n - 1) as nat);
    }
}

/// Resolving keeps the sign of the movement and never lengthens it.
pub proof fn lemma_resolve_bounds(shapes: Seq<VoxelShape>, bx: Aabb, axis: Axis, m: int, n: nat)
    ensures
        m >= 0 ==> 0 <= resolve(shapes, bx, axis, m, n) <= m,
        m <= 0 ==> m <= resolve(shapes, bx, axis, m, n) <= 0,
    decreases n,
{
    if n > 0 {
        lemma_resolve_bounds(shapes, bx, axis, m, (n - 1) as nat);
        let p = resolve(shapes, bx, axis, m, (n - 1) as nat);
        if p != 0 {
            lemma_sweep_bounds(shapes[n - 1], bx, axis, p, cell_count(shapes[n - 1].grid()));
        }
    }
}

impl Shapes {
    /// The movement along `axis` that the box can make past every shape in
    /// `shapes`, each cutting back what the ones before it left.
    pub fn collide(axis: Axis, entity_box: &Aabb, collision_boxes: &Vec<VoxelShape>, movement: i64) -> (r: i64)
        requires
            all_wf(collision_boxes@),
        ensures
            r == resolve(collision_boxes@, *entity_box, axis, movement as int, collision_boxes@.len()),
            movement >= 0 ==> 0 <= r <= movement,
            movement <= 0 ==> movement <= r <= 0,
    {
        proof {
            lemma_resolve_bounds(collision_boxes@, *entity_box, axis, movement as int, collision_boxes@.len());
        }
        let mut m = movement;
        let mut i: usize = 0;
        while i < collision_boxes.len()
            invariant
                all_wf(collision_boxes@),
                i <= collision_boxes@.len(),
                m == resolve(collision_boxes@, *entity_box, axis, movement as int, i as nat),
            decreases collision_boxes@.len() - i,
        {
            if -EPSILON < m && m < EPSILON {
                proof {
                    lemma_resolve_settled(collision_boxes@, *entity_box, axis, movement as int, i as nat, collision_boxes@.len());
                }
                return 0;
            }
            assert(collision_boxes@[i as int].wf());
            m = collision_boxes[i].collide(axis, entity_box, m);
            i = i + 1;
        }
        m
    }

    pub fn collide_x(entity_box: &Aabb, collision_boxes: &Vec<VoxelShape>, movement: i64) -> (r: i64)
        requires
            all_wf(collision_boxes@),
        ensures
            r == resolve(collision_boxes@, *entity_box, Axis::X, movement as int, collision_boxes@.len()),
            movement >= 0 ==> 0 <= r <= movement,
            movement <= 0 ==> movement <= r <= 0,
    {
        Shapes::collide(Axis::X, entity_box, collision_boxes, movement)
    }

    pub fn collide_y(entity_box: &Aabb, collision_boxes: &Vec<VoxelShape>, movement: i64) -> (r: i64)
        requires
            all_wf(collision_boxes@),
        ensures
            r == resolve(collision_boxes@, *entity_box, Axis::Y, movement as int, collision_boxes@.len()),
            movement >= 0 ==> 0 <= r <= movement,
            movement <= 0 ==> movement <= r <= 0,
    {
        Shapes::collide(Axis::Y, entity_box, collision_boxes, movement)
    }

    pub fn collide_z(entity_box: &Aabb, collision_boxes: &Vec<VoxelShape>, movement: i64) -> (r: i64)
        requires
            all_wf(collision_boxes@),
        ensures
            r == resolve(collision_boxes@, *entity_box, Axis::Z, movement as int, collision_boxes@.len()),
            movement >= 0 ==> 0 <= r <= movement,
            movement <= 0 ==> movement <= r <= 0,
    {
        Shapes::collide(Axis::Z, entity_box, collision_boxes, movement)
    }
}

/// Moving by zero is a fixed point: whatever the shapes, the result is zero.
pub proof fn lemma_zero_movement_fixed(shapes: Seq<VoxelShape>, bx: Aabb, axis: Axis)
    ensures
        resolve(shapes, bx, axis, 0, shapes.len()) == 0,
{
    lemma_resolve_bounds(shapes, bx, axis, 0, shapes.len());
}

/// With no shapes to collide with, the movement is returned unchanged.
pub proof fn lemma_no_shapes_unchanged(bx: Aabb, axis: Axis, m: int)
    ensures
        resolve(Seq::<VoxelShape>::empty(), bx, axis, m, 0) == m,
{
}

/// A longer movement in the same direction is never resolved to a shorter one:
/// the resolved movement is non-decreasing in the magnitude of the request.
pub proof fn lemma_resolve_monotonic(shapes: Seq<VoxelShape>, bx: Aabb, axis: Axis, m1: int, m2: int, n: nat)
    requires
        (0 <= m1 <= m2) || (m2 <= m1 <= 0),
    ensures
        0 <= m1 <= m2 ==> resolve(shapes, bx, axis, m1, n) <= resolve(shapes, bx, axis, m2, n),
        m2 <= m1 <= 0 ==> resolve(shapes, bx, axis, m2, n) <= resolve(shapes, bx, axis, m1, n),
    decreases n,
{
    if n > 0 {
        let k = (n - 1) as nat;
        lemma_resolve_monotonic(shapes, bx, axis, m1, m2, k);
        lemma_resolve_bounds(shapes, bx, axis, m1, k);
        lemma_resolve_bounds(shapes, bx, axis, m2, k);
        let p1 = resolve(shapes, bx, axis, m1, k);
        let p2 = resolve(shapes, bx, axis, m2, k);
        let s = shapes[n - 1];
        let cells = cell_count(s.grid());
        if p1 != 0 {
            lemma_sweep_bounds(s, bx, axis, p1, cells);
        }
        if p2 != 0 {
            lemma_sweep_bounds(s, bx, axis, p2, cells);
        }
        if !(-EPSILON < p1 < EPSILON) && !(-EPSILON < p2 < EPSILON) {
            lemma_sweep_monotonic(s, bx, axis, p1, p2, cells);
        }
    }
}

} // verus!
