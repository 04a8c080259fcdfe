use vstd::prelude::*;
use crate::shape::DiscreteVoxelShape;

verus! {

/// Fixed-point resolution of continuous coordinates: this many units span one block.
pub const UNITS_PER_BLOCK: i64 = 1024;

/// One of the three world axes.
#[derive(Clone, Copy, Debug, PartialEq, Eq, Structural)]
pub enum Axis {
    X,
    Y,
    Z,
}

/// The `i`-th of `n + 1` evenly spaced boundaries across one block, in fixed-point units.
pub open spec fn cube_coord(i: int, n: nat) -> int {
    if n == 0 { 0 } else { i * UNITS_PER_BLOCK / (n as int) }
}

pub open spec fn cube_coords(n: nat) -> Seq<i64> {
    Seq::new(n + 1, |i: int| cube_coord(i, n) as i64)
}

/// Extent of a grid along an axis.
pub open spec fn grid_size(s: DiscreteVoxelShape, axis: Axis) -> nat {
    match axis {
        Axis::X => s.spec_x_size(),
        Axis::Y => s.spec_y_size(),
        Axis::Z => s.spec_z_size(),
    }
}

/// A full block whose boundaries subdivide the unit cube evenly.
pub struct CubeVoxelShape {
    pub shape: DiscreteVoxelShape,
}

/// A shape whose boundary coordinates are given explicitly.
pub struct ArrayVoxelShape {
    pub shape: DiscreteVoxelShape,
    pub xs: Vec<i64>,
    pub ys: Vec<i64>,
    pub zs: Vec<i64>,
}

/// An occupancy grid together with the boundary coordinates of its cells.
pub enum VoxelShape {
    Cube(CubeVoxelShape),
    Array(ArrayVoxelShape),
}

impl CubeVoxelShape {
    pub fn new(shape: DiscreteVoxelShape) -> (r: Self)
        requires
            shape.wf(),
        ensures
            r.shape == shape,
    {
        CubeVoxelShape { shape }
    }
}

impl ArrayVoxelShape {
    /// Each coordinate list must hold one boundary more than the grid has cells on its axis.
    pub fn new(shape: DiscreteVoxelShape, xs: Vec<i64>, ys: Vec<i64>, zs: Vec<i64>) -> (r: Self)
        requires
            shape.wf(),
            xs@.len() == shape.spec_x_size() + 1,
            ys@.len() == shape.spec_y_size() + 1,
            zs@.len() == shape.spec_z_size() + 1,
        ensures
            r.shape == shape,
            r.xs@ == xs@,
            r.ys@ == ys@,
            r.zs@ == zs@,
    {
        ArrayVoxelShape { shape, xs, ys, zs }
    }
}

fn cube_axis_coords(n: u32) -> (r: Vec<i64>)
    ensures
        r@ == cube_coords(n as nat),
{
    let mut parts: Vec<i64> = Vec::new();
    let mut i: u32 = 0;
    loop
        invariant_except_break
            i <= n,
            parts@.len() == i,
        invariant
            forall|k: int| 0 <= k < parts@.len() ==> parts@[k] == cube_coord(k, n as nat) as i64,
        ensures
            parts@.len() == n + 1,
        decreases n - i,
    {
        let c: i64 = if n == 0 {
            0
        } else {
            assert(0 <= i * UNITS_PER_BLOCK / (n as int) <= UNITS_PER_BLOCK) by (nonlinear_arith)
                requires 0 <= i <= n, n > 0;
            ((i as i64) * UNITS_PER_BLOCK) / (n as i64)
        };
        parts.push(c);
        if i == n {
            break;
        }
        i = i + 1;
    }
    assert(parts@ =~= cube_coords(n as nat));
    parts
}

impl VoxelShape {
    /// The occupancy grid of the shape.
    pub open spec fn grid(&self) -> DiscreteVoxelShape {
        match self {
            VoxelShape::Cube(c) => c.shape,
            VoxelShape::Array(a) => a.shape,
        }
    }

    /// The boundary coordinates along an axis.
    pub open spec fn coords(&self, axis: Axis) -> Seq<i64> {
        match self {
            VoxelShape::Cube(c) => cube_coords(grid_size(c.shape, axis)),
            VoxelShape::Array(a) => match axis {
                Axis::X => a.xs@,
                Axis::Y => a.ys@,
                Axis::Z => a.zs@,
            },
        }
    }

    /// The grid is well formed and each axis has one boundary more than cells.
    pub open spec fn wf(&self) -> bool {
        &&& self.grid().wf()
        &&& self.coords(Axis::X).len() == self.grid().spec_x_size() + 1
        &&& self.coords(Axis::Y).len() == self.grid().spec_y_size() + 1
        &&& self.coords(Axis::Z).len() == self.grid().spec_z_size() + 1
    }

    pub fn shape(&self) -> (r: &DiscreteVoxelShape)
        ensures
            *r == self.grid(),
    {
        match self {
            VoxelShape::Cube(c) => &c.shape,
            VoxelShape::Array(a) => &a.shape,
        }
    }

    pub fn get_coords(&self, axis: Axis) -> (r: Vec<i64>)
        ensures
            r@ == self.coords(axis),
    {
        match self {
            VoxelShape::Cube(c) => {
                let n = match axis {
                    Axis::X => c.shape.x_size(),
                    Axis::Y => c.shape.y_size(),
                    Axis::Z => c.shape.z_size(),
                };
                cube_axis_coords(n)
            },
            VoxelShape::Array(a) => match axis {
                Axis::X => a.xs.clone(),
                Axis::Y => a.ys.clone(),
                Axis::Z => a.zs.clone(),
            },
        }
    }

    pub fn get_x_coords(&self) -> (r: Vec<i64>)
        requires
            self.wf(),
        ensures
            r@ == self.coords(Axis::X),
            r@.len() == self.grid().spec_x_size() + 1,
    {
        self.get_coords(Axis::X)
    }

    pub fn get_y_coords(&self) -> (r: Vec<i64>)
        requires
            self.wf(),
        ensures
            r@ == self.coords(Axis::Y),
            r@.len() == self.grid().spec_y_size() + 1,
    {
        self.get_coords(Axis::Y)
    }

    pub fn get_z_coords(&self) -> (r: Vec<i64>)
        requires
            self.wf(),
        ensures
            r@ == self.coords(Axis::Z),
            r@.len() == self.grid().spec_z_size() + 1,
    {
        self.get_coords(Axis::Z)
    }
}

/// The boundary coordinates of the canonical empty shape on every axis.
pub open spec fn empty_coords() -> Seq<i64> {
    seq![0i64]
}

/// The canonical shape with no collision volume: a zero-size grid with one
/// boundary at the origin on each axis.
pub open spec fn is_canonical_empty(s: VoxelShape) -> bool {
    &&& s.wf()
    &&& s is Array
    &&& s.grid().spec_x_size() == 0
    &&& s.grid().spec_y_size() == 0
    &&& s.grid().spec_z_size() == 0
    &&& s.coords(Axis::X) == empty_coords()
    &&& s.coords(Axis::Y) == empty_coords()
    &&& s.coords(Axis::Z) == empty_coords()
}

/// A single full block: a one-cell grid with its cell occupied.
pub fn block_shape() -> (r: VoxelShape)
    ensures
        r.wf(),
        r is Cube,
        r.grid().spec_x_size() == 1,
        r.grid().spec_y_size() == 1,
        r.grid().spec_z_size() == 1,
        r.grid().filled(0, 0, 0),
        !r.grid().spec_is_empty(),
{
    let mut shape = DiscreteVoxelShape::new(1, 1, 1);
    shape.fill(0, 0, 0);
    let r = VoxelShape::Cube(CubeVoxelShape::new(shape));
    assert(r.grid().filled(0, 0, 0));
    r
}

/// The canonical shape with no collision volume.
pub fn empty_shape() -> (r: VoxelShape)
    ensures
        is_canonical_empty(r),
        r.grid().spec_is_empty(),
{
    let shape = DiscreteVoxelShape::new(0, 0, 0);
    let r = VoxelShape::Array(ArrayVoxelShape::new(shape, vec![0i64], vec![0i64], vec![0i64]));
    assert(r.coords(Axis::X) =~= empty_coords());
    assert(r.coords(Axis::Y) =~= empty_coords());
    assert(r.coords(Axis::Z) =~= empty_coords());
    r
}

/// Every coordinate shifted by `d` stays within `i64`.
pub open spec fn shift_fits(cs: Seq<i64>, d: i64) -> bool {
    forall|i: int| 0 <= i < cs.len() ==> i64::MIN <= #[trigger] cs[i] + d <= i64::MAX
}

/// Each coordinate shifted by `d`.
pub open spec fn shifted(cs: Seq<i64>, d: i64) -> Seq<i64> {
    cs.map_values(|c: i64| (c + d) as i64)
}

fn shift_coords(cs: Vec<i64>, d: i64) -> (r: Vec<i64>)
    requires
        shift_fits(cs@, d),
    ensures
        r@ == shifted(cs@, d),
{
    let mut r: Vec<i64> = Vec::with_capacity(cs.len());
    let mut i: usize = 0;
    while i < cs.len()
        invariant
            shift_fits(cs@, d),
            i <= cs@.len(),
            r@ =~= shifted(cs@.subrange(0, i as int), d),
        decreases cs@.len() - i,
    {
        r.push(cs[i] + d);
        i = i + 1;
        assert(cs@.subrange(0, i as int) =~= cs@.subrange(0, i - 1).push(cs@[i - 1]));
    }
    assert(cs@.subrange(0, i as int) =~= cs@);
    r
}

impl VoxelShape {
    /// The shape translated by `(dx, dy, dz)`; an empty shape gives the canonical
    /// empty shape instead.
    pub fn move_relative(&self, dx: i64, dy: i64, dz: i64) -> (r: VoxelShape)
        requires
            self.wf(),
            shift_fits(self.coords(Axis::X), dx),
            shift_fits(self.coords(Axis::Y), dy),
            shift_fits(self.coords(Axis::Z), dz),
        ensures
            r.wf(),
            self.grid().spec_is_empty() ==> is_canonical_empty(r),
            !self.grid().spec_is_empty() ==> {
                &&& r is Array
                &&& r.grid().same_occupancy(&self.grid())
                &&& r.coords(Axis::X) == shifted(self.coords(Axis::X), dx)
                &&& r.coords(Axis::Y) == shifted(self.coords(Axis::Y), dy)
                &&& r.coords(Axis::Z) == shifted(self.coords(Axis::Z), dz)
            },
            r.grid().spec_is_empty() == self.grid().spec_is_empty(),
    {
        let grid = self.shape();
        if grid.is_empty() {
            return empty_shape();
        }
        let xs = shift_coords(self.get_x_coords(), dx);
        let ys = shift_coords(self.get_y_coords(), dy);
        let zs = shift_coords(self.get_z_coords(), dz);
        let r = VoxelShape::Array(ArrayVoxelShape::new(grid.duplicate(), xs, ys, zs));
        assert(!r.grid().spec_is_empty()) by {
            let (x, y, z) = choose|x: int, y: int, z: int| self.grid().filled(x, y, z);
            assert(r.grid().filled(x, y, z));
        }
        r
    }
}

} // verus!
