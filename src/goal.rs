use vstd::prelude::*;
use crate::voxel::UNITS_PER_BLOCK;

verus! {

/// One cell of the world grid.
#[derive(Clone, Copy, Debug, PartialEq, Eq, Structural, Hash)]
pub struct GridPos {
    pub x: i32,
    pub y: i32,
    pub z: i32,
}

/// A continuous point in fixed-point units (`UNITS_PER_BLOCK` per block).
#[derive(Clone, Copy, Debug, PartialEq, Eq, Structural)]
pub struct Point {
    pub x: i64,
    pub y: i64,
    pub z: i64,
}

/// Largest magnitude of a point coordinate or radius that a goal accepts, so that
/// squared distances stay exact.
pub const MAX_POINT_UNITS: i64 = 0x4_0000_0000_0000;

/// Reach a given cell exactly.
#[derive(Clone, Copy, Debug, PartialEq, Eq, Structural)]
pub struct BlockPosGoal {
    pub pos: GridPos,
}

/// Come within `radius` of a point, measured from the centre of a cell.
#[derive(Clone, Copy, Debug, PartialEq, Eq, Structural)]
pub struct RadiusGoal {
    pub pos: Point,
    pub radius: i64,
}

/// Avoid what the inner goal seeks.
pub struct InverseGoal(pub Box<Goal>);

/// Satisfied when either goal is.
pub struct OrGoal(pub Box<Goal>, pub Box<Goal>);

/// Satisfied when both goals are.
pub struct AndGoal(pub Box<Goal>, pub Box<Goal>);

/// A target of a search: a heuristic cost and a success predicate over cells.
pub enum Goal {
    BlockPos(BlockPosGoal),
    Radius(RadiusGoal),
    Inverse(InverseGoal),
    Or(OrGoal),
    And(AndGoal),
}

pub open spec fn sq(v: int) -> int {
    v * v
}

/// Squared distance between two cells, in squared fixed-point units.
pub open spec fn cell_dist_sq(a: GridPos, b: GridPos) -> int {
    sq((a.x - b.x) * UNITS_PER_BLOCK) + sq((a.y - b.y) * UNITS_PER_BLOCK) + sq((a.z - b.z) * UNITS_PER_BLOCK)
}

/// The centre of a cell along one axis, in fixed-point units.
pub open spec fn center(c: i32) -> int {
    c * UNITS_PER_BLOCK + UNITS_PER_BLOCK / 2
}

/// Squared distance from a point to the centre of a cell.
pub open spec fn center_dist_sq(p: Point, n: GridPos) -> int {
    sq(p.x - center(n.x)) + sq(p.y - center(n.y)) + sq(p.z - center(n.z))
}

pub open spec fn point_fits(v: i64) -> bool {
    -MAX_POINT_UNITS <= v <= MAX_POINT_UNITS
}

/// Bound on the magnitude of every heuristic value.
pub open spec fn heuristic_bound() -> int {
    0x400_0000_0000_0000_0000_0000_0000_0000
}

impl Goal {
    /// Every radius goal inside keeps its point and radius in range.
    pub open spec fn wf(&self) -> bool
        decreases self,
    {
        match self {
            Goal::BlockPos(_) => true,
            Goal::Radius(g) => point_fits(g.pos.x) && point_fits(g.pos.y) && point_fits(g.pos.z)
                && point_fits(g.radius),
            Goal::Inverse(g) => g.0.wf(),
            Goal::Or(g) => g.0.wf() && g.1.wf(),
            Goal::And(g) => g.0.wf() && g.1.wf(),
        }
    }

    pub open spec fn spec_heuristic(&self, n: GridPos) -> int
        decreases self,
    {
        match self {
            Goal::BlockPos(g) => cell_dist_sq(g.pos, n),
            Goal::Radius(g) => center_dist_sq(g.pos, n),
            Goal::Inverse(g) => -g.0.spec_heuristic(n),
            Goal::Or(g) => {
                let a = g.0.spec_heuristic(n);
                let b = g.1.spec_heuristic(n);
                if a <= b { a } else { b }
            },
            Goal::And(g) => {
                let a = g.0.spec_heuristic(n);
                let b = g.1.spec_heuristic(n);
                if a >= b { a } else { b }
            },
        }
    }

    pub open spec fn spec_success(&self, n: GridPos) -> bool
        decreases self,
    {
        match self {
            Goal::BlockPos(g) => n == g.pos,
            Goal::Radius(g) => center_dist_sq(g.pos, n) <= sq(g.radius as int),
            Goal::Inverse(g) => !g.0.spec_success(n),
            Goal::Or(g) => g.0.spec_success(n) || g.1.spec_success(n),
            Goal::And(g) => g.0.spec_success(n) && g.1.spec_success(n),
        }
    }

    /// Heuristic values stay within `heuristic_bound()`.
    pub proof fn lemma_heuristic_bounded(&self, n: GridPos)
        requires
            self.wf(),
        ensures
            -heuristic_bound() <= self.spec_heuristic(n) <= heuristic_bound(),
        decreases self,
    {
        match self {
            Goal::BlockPos(g) => {
                lemma_sq_bound((g.pos.x - n.x) * UNITS_PER_BLOCK);
                lemma_sq_bound((g.pos.y - n.y) * UNITS_PER_BLOCK);
                lemma_sq_bound((g.pos.z - n.z) * UNITS_PER_BLOCK);
            },
            Goal::Radius(g) => {
                lemma_sq_bound(g.pos.x - center(n.x));
                lemma_sq_bound(g.pos.y - center(n.y));
                lemma_sq_bound(g.pos.z - center(n.z));
            },
            Goal::Inverse(g) => g.0.lemma_heuristic_bounded(n),
            Goal::Or(g) => {
                g.0.lemma_heuristic_bounded(n);
                g.1.lemma_heuristic_bounded(n);
            },
            Goal::And(g) => {
                g.0.lemma_heuristic_bounded(n);
                g.1.lemma_heuristic_bounded(n);
            },
        }
    }

    /// Estimated cost from `n` to the goal.
    pub fn heuristic(&self, n: GridPos) -> (r: i128)
        requires
            self.wf(),
        ensures
            r == self.spec_heuristic(n),
        decreases self,
    {
        proof {
            self.lemma_heuristic_bounded(n);
        }
        match self {
            Goal::BlockPos(g) => g.heuristic(n),
            Goal::Radius(g) => g.heuristic(n),
            Goal::Inverse(g) => g.heuristic(n),
            Goal::Or(g) => g.heuristic(n),
            Goal::And(g) => g.heuristic(n),
        }
    }

    /// Whether reaching `n` satisfies the goal.
    pub fn success(&self, n: GridPos) -> (r: bool)
        requires
            self.wf(),
        ensures
            r == self.spec_success(n),
        decreases self,
    {
        match self {
            Goal::BlockPos(g) => g.success(n),
            Goal::Radius(g) => g.success(n),
            Goal::Inverse(g) => g.success(n),
            Goal::Or(g) => g.success(n),
            Goal::And(g) => g.success(n),
        }
    }
}

pub open spec fn spec_min(a: int, b: int) -> int {
    if a <= b { a } else { b }
}

pub open spec fn spec_max(a: int, b: int) -> int {
    if a >= b { a } else { b }
}

fn square(v: i64) -> (r: i128)
    requires
        -0x1000_0000_0000_0000 <= v <= 0x1000_0000_0000_0000,
    ensures
        r == sq(v as int),
        0 <= r <= 0x100_0000_0000_0000_0000_0000_0000_0000,
{
    proof {
        lemma_sq_bound(v as int);
    }
    (v as i128) * (v as i128)
}

impl BlockPosGoal {
    /// Squared distance from `n` to the target cell, in squared fixed-point units
    /// (`UNITS_PER_BLOCK`² per squared block), the same scale as `RadiusGoal`.
    pub fn heuristic(&self, n: GridPos) -> (r: i128)
        ensures
            r == cell_dist_sq(self.pos, n),
    {
        let dx = (self.pos.x as i64 - n.x as i64) * UNITS_PER_BLOCK;
        let dy = (self.pos.y as i64 - n.y as i64) * UNITS_PER_BLOCK;
        let dz = (self.pos.z as i64 - n.z as i64) * UNITS_PER_BLOCK;
        let (a, b, c) = (square(dx), square(dy), square(dz));
        a + b + c
    }

    /// Whether `n` is the target cell.
    pub fn success(&self, n: GridPos) -> (r: bool)
        ensures
            r == (n == self.pos),
    {
        n.x == self.pos.x && n.y == self.pos.y && n.z == self.pos.z
    }
}

impl From<GridPos> for BlockPosGoal {
    fn from(pos: GridPos) -> (r: BlockPosGoal)
        ensures
            r.pos == pos,
    {
        BlockPosGoal { pos }
    }
}

impl vstd::std_specs::convert::FromSpecImpl<GridPos> for BlockPosGoal {
    open spec fn obeys_from_spec() -> bool {
        true
    }

    open spec fn from_spec(v: GridPos) -> BlockPosGoal {
        BlockPosGoal { pos: v }
    }
}

impl RadiusGoal {
    /// Squared distance from the centre of `n` to the target point.
    pub fn heuristic(&self, n: GridPos) -> (r: i128)
        requires
            Goal::Radius(*self).wf(),
        ensures
            r == center_dist_sq(self.pos, n),
    {
        let dx = self.pos.x - center_units(n.x);
        let dy = self.pos.y - center_units(n.y);
        let dz = self.pos.z - center_units(n.z);
        let (a, b, c) = (square(dx), square(dy), square(dz));
        a + b + c
    }

    /// Whether the centre of `n` lies within the radius of the target point.
    pub fn success(&self, n: GridPos) -> (r: bool)
        requires
            Goal::Radius(*self).wf(),
        ensures
            r == (center_dist_sq(self.pos, n) <= sq(self.radius as int)),
    {
        self.heuristic(n) <= square(self.radius)
    }
}

fn center_units(c: i32) -> (r: i64)
    ensures
        r == center(c),
{
    (c as i64) * UNITS_PER_BLOCK + UNITS_PER_BLOCK / 2
}

impl InverseGoal {
    /// The negated heuristic of the inner goal.
    pub fn heuristic(&self, n: GridPos) -> (r: i128)
        requires
            self.0.wf(),
        ensures
            r == -self.0.spec_heuristic(n),
        decreases self,
    {
        proof {
            self.0.lemma_heuristic_bounded(n);
        }
        -self.0.heuristic(n)
    }

    /// The negation of the inner goal's success.
    pub fn success(&self, n: GridPos) -> (r: bool)
        requires
            self.0.wf(),
        ensures
            r == !self.0.spec_success(n),
        decreases self,
    {
        !self.0.success(n)
    }
}

impl OrGoal {
    /// The smaller of the two heuristics.
    pub fn heuristic(&self, n: GridPos) -> (r: i128)
        requires
            self.0.wf(),
            self.1.wf(),
        ensures
            r == spec_min(self.0.spec_heuristic(n), self.1.spec_heuristic(n)),
        decreases self,
    {
        let a = self.0.heuristic(n);
        let b = self.1.heuristic(n);
        if a <= b { a } else { b }
    }

    /// Whether either goal is met.
    pub fn success(&self, n: GridPos) -> (r: bool)
        requires
            self.0.wf(),
            self.1.wf(),
        ensures
            r == (self.0.spec_success(n) || self.1.spec_success(n)),
        decreases self,
    {
        self.0.success(n) || self.1.success(n)
    }
}

impl AndGoal {
    /// The larger of the two heuristics.
    pub fn heuristic(&self, n: GridPos) -> (r: i128)
        requires
            self.0.wf(),
            self.1.wf(),
        ensures
            r == spec_max(self.0.spec_heuristic(n), self.1.spec_heuristic(n)),
        decreases self,
    {
        let a = self.0.heuristic(n);
        let b = self.1.heuristic(n);
        if a >= b { a } else { b }
    }

    /// Whether both goals are met.
    pub fn success(&self, n: GridPos) -> (r: bool)
        requires
            self.0.wf(),
            self.1.wf(),
        ensures
            r == (self.0.spec_success(n) && self.1.spec_success(n)),
        decreases self,
    {
        self.0.success(n) && self.1.success(n)
    }
}

proof fn lemma_sq_bound(v: int)
    requires
        -0x1000_0000_0000_0000 <= v <= 0x1000_0000_0000_0000,
    ensures
        0 <= sq(v) <= 0x100_0000_0000_0000_0000_0000_0000_0000,
{
    let m: int = 0x1000_0000_0000_0000;
    if v >= 0 {
        assert(v * v <= v * m) by (nonlinear_arith) requires 0 <= v <= m;
        assert(v * m <= m * m) by (nonlinear_arith) requires 0 <= v <= m;
    } else {
        assert(v * v <= (-v) * m) by (nonlinear_arith) requires 0 <= -v <= m;
        assert((-v) * m <= m * m) by (nonlinear_arith) requires 0 <= -v <= m;
    }
    assert(0 <= v * v) by (nonlinear_arith);
    assert(m * m == 0x100_0000_0000_0000_0000_0000_0000_0000);
}

} // verus!
