use vstd::prelude::*;

verus! {

/// Occupancy of a box of grid cells `[0, x_size) x [0, y_size) x [0, z_size)`.
pub struct DiscreteVoxelShape {
    x_size: u32,
    y_size: u32,
    z_size: u32,
    cells: Vec<bool>,
}

/// Whether `(x, y, z)` lies in a grid of the given extents.
pub open spec fn in_grid(xs: nat, ys: nat, zs: nat, x: int, y: int, z: int) -> bool {
    0 <= x < xs && 0 <= y < ys && 0 <= z < zs
}

/// Position of a cell in the row-major storage of a grid.
pub open spec fn cell_offset(ys: nat, zs: nat, x: int, y: int, z: int) -> int {
    (x * ys + y) * zs + z
}

pub proof fn lemma_offset_in_range(xs: nat, ys: nat, zs: nat, x: int, y: int, z: int)
    requires
        in_grid(xs, ys, zs, x, y, z),
    ensures
        0 <= cell_offset(ys, zs, x, y, z) < xs * ys * zs,
{
    assert(0 <= x * ys) by (nonlinear_arith)
        requires 0 <= x, 0 <= ys;
    assert(0 <= (x * ys + y) * zs) by (nonlinear_arith)
        requires 0 <= x * ys + y, 0 <= zs;
    assert(x * ys + y < xs * ys) by (nonlinear_arith)
        requires 0 <= x < xs, 0 <= y < ys;
    assert((x * ys + y) * zs + z < xs * ys * zs) by (nonlinear_arith)
        requires x * ys + y < xs * ys, 0 <= z < zs, 0 <= x * ys + y;
}

pub proof fn lemma_offset_injective(ys: nat, zs: nat, x1: int, y1: int, z1: int, x2: int, y2: int, z2: int)
    requires
        0 <= y1 < ys, 0 <= z1 < zs, 0 <= y2 < ys, 0 <= z2 < zs, 0 <= x1, 0 <= x2,
        cell_offset(ys, zs, x1, y1, z1) == cell_offset(ys, zs, x2, y2, z2),
    ensures
        x1 == x2 && y1 == y2 && z1 == z2,
{
    let a1 = x1 * ys + y1;
    let a2 = x2 * ys + y2;
    assert(a1 == a2 && z1 == z2) by (nonlinear_arith)
        requires a1 * zs + z1 == a2 * zs + z2, 0 <= z1 < zs, 0 <= z2 < zs, 0 <= a1, 0 <= a2;
    assert(x1 == x2 && y1 == y2) by (nonlinear_arith)
        requires x1 * ys + y1 == x2 * ys + y2, 0 <= y1 < ys, 0 <= y2 < ys, 0 <= x1, 0 <= x2;
}

/// The cell stored at position `k` of a row-major grid.
pub open spec fn decode(ys: nat, zs: nat, k: int) -> (int, int, int) {
    ((k / zs as int) / ys as int, (k / zs as int) % ys as int, k % zs as int)
}

pub proof fn lemma_decode(xs: nat, ys: nat, zs: nat, k: int)
    requires
        0 <= k < xs * ys * zs,
    ensures
        ys > 0 && zs > 0,
        in_grid(xs, ys, zs, decode(ys, zs, k).0, decode(ys, zs, k).1, decode(ys, zs, k).2),
        cell_offset(ys, zs, decode(ys, zs, k).0, decode(ys, zs, k).1, decode(ys, zs, k).2) == k,
{
    let zi = zs as int;
    let yi = ys as int;
    assert(zi > 0 && yi > 0) by (nonlinear_arith)
        requires 0 <= k < xs * ys * zs, yi == ys, zi == zs;
    let a = k / zi;
    let z = k % zi;
    let x = a / yi;
    let y = a % yi;
    assert(k == a * zi + z) by (nonlinear_arith) requires zi > 0, a == k / zi, z == k % zi;
    assert(a == x * yi + y) by (nonlinear_arith) requires yi > 0, x == a / yi, y == a % yi;
    assert(0 <= a && 0 <= x && 0 <= y < yi && 0 <= z < zi) by (nonlinear_arith)
        requires zi > 0, yi > 0, 0 <= k, a == k / zi, z == k % zi, x == a / yi, y == a % yi;
    assert(x < xs) by (nonlinear_arith)
        requires k == (x * yi + y) * zi + z, 0 <= y < yi, 0 <= z < zi, 0 <= x,
            k < xs * yi * zi, yi > 0, zi > 0;
}

impl DiscreteVoxelShape {
    pub closed spec fn spec_x_size(&self) -> nat {
        self.x_size as nat
    }

    pub closed spec fn spec_y_size(&self) -> nat {
        self.y_size as nat
    }

    pub closed spec fn spec_z_size(&self) -> nat {
        self.z_size as nat
    }

    /// Whether the cell `(x, y, z)` is occupied; false outside the grid.
    pub closed spec fn filled(&self, x: int, y: int, z: int) -> bool {
        in_grid(self.x_size as nat, self.y_size as nat, self.z_size as nat, x, y, z)
            && self.cells@[cell_offset(self.y_size as nat, self.z_size as nat, x, y, z)]
    }

    pub closed spec fn wf(&self) -> bool {
        self.cells@.len() == self.x_size * self.y_size * self.z_size
            && self.cells@.len() <= usize::MAX
    }

    pub open spec fn spec_is_empty(&self) -> bool {
        forall|x: int, y: int, z: int| !#[trigger] self.filled(x, y, z)
    }

    /// Same extents and same occupied cells.
    pub open spec fn same_occupancy(&self, o: &DiscreteVoxelShape) -> bool {
        &&& self.spec_x_size() == o.spec_x_size()
        &&& self.spec_y_size() == o.spec_y_size()
        &&& self.spec_z_size() == o.spec_z_size()
        &&& forall|x: int, y: int, z: int| #[trigger] self.filled(x, y, z) == o.filled(x, y, z)
    }

    /// The cell count of a well-formed grid fits in memory.
    pub proof fn lemma_cell_count_fits(&self)
        requires
            self.wf(),
        ensures
            self.spec_x_size() * self.spec_y_size() * self.spec_z_size() <= usize::MAX,
    {
    }

    /// Only cells inside the grid are occupied.
    pub proof fn lemma_filled_in_grid(&self, x: int, y: int, z: int)
        requires
            self.filled(x, y, z),
        ensures
            in_grid(self.spec_x_size(), self.spec_y_size(), self.spec_z_size(), x, y, z),
    {
    }

    /// An independent grid with the same extents and occupied cells.
    pub fn duplicate(&self) -> (r: Self)
        requires
            self.wf(),
        ensures
            r.wf(),
            r.same_occupancy(self),
    {
        let cells = self.cells.clone();
        assert(cells@ =~= self.cells@);
        DiscreteVoxelShape { x_size: self.x_size, y_size: self.y_size, z_size: self.z_size, cells }
    }

    /// A grid of the given extents with no cell occupied.
    pub fn new(x_size: u32, y_size: u32, z_size: u32) -> (r: Self)
        requires
            x_size * y_size * z_size <= usize::MAX,
        ensures
            r.wf(),
            r.spec_x_size() == x_size,
            r.spec_y_size() == y_size,
            r.spec_z_size() == z_size,
            r.spec_is_empty(),
    {
        let n: usize = if z_size == 0 {
            0
        } else {
            assert(x_size * y_size <= x_size * y_size * z_size) by (nonlinear_arith)
                requires z_size >= 1;
            (x_size as usize) * (y_size as usize) * (z_size as usize)
        };
        assert(n == x_size * y_size * z_size);
        let mut cells: Vec<bool> = Vec::with_capacity(n);
        let mut i: usize = 0;
        while i < n
            invariant
                i <= n,
                cells@.len() == i,
                forall|k: int| 0 <= k < i ==> !cells@[k],
            decreases n - i,
        {
            cells.push(false);
            i = i + 1;
        }
        let r = DiscreteVoxelShape { x_size, y_size, z_size, cells };
        proof {
            assert forall|x: int, y: int, z: int| !#[trigger] r.filled(x, y, z) by {
                if in_grid(x_size as nat, y_size as nat, z_size as nat, x, y, z) {
                    lemma_offset_in_range(x_size as nat, y_size as nat, z_size as nat, x, y, z);
                }
            }
        }
        r
    }

    pub fn x_size(&self) -> (r: u32)
        ensures
            r == self.spec_x_size(),
    {
        self.x_size
    }

    pub fn y_size(&self) -> (r: u32)
        ensures
            r == self.spec_y_size(),
    {
        self.y_size
    }

    pub fn z_size(&self) -> (r: u32)
        ensures
            r == self.spec_z_size(),
    {
        self.z_size
    }

    /// Marks one cell occupied. The cell must lie inside the grid.
    pub fn fill(&mut self, x: u32, y: u32, z: u32)
        requires
            old(self).wf(),
            in_grid(old(self).spec_x_size(), old(self).spec_y_size(), old(self).spec_z_size(), x as int, y as int, z as int),
        ensures
            final(self).wf(),
            final(self).spec_x_size() == old(self).spec_x_size(),
            final(self).spec_y_size() == old(self).spec_y_size(),
            final(self).spec_z_size() == old(self).spec_z_size(),
            forall|a: int, b: int, c: int| #[trigger] final(self).filled(a, b, c)
                == ((a == x && b == y && c == z) || old(self).filled(a, b, c)),
    {
        let k = self.offset(x, y, z);
        self.cells.set(k, true);
        proof {
            assert forall|a: int, b: int, c: int| #[trigger] self.filled(a, b, c)
                == ((a == x && b == y && c == z) || old(self).filled(a, b, c)) by {
                if in_grid(self.x_size as nat, self.y_size as nat, self.z_size as nat, a, b, c) {
                    lemma_offset_in_range(self.x_size as nat, self.y_size as nat, self.z_size as nat, a, b, c);
                    if cell_offset(self.y_size as nat, self.z_size as nat, a, b, c) == k {
                        lemma_offset_injective(self.y_size as nat, self.z_size as nat, a, b, c, x as int, y as int, z as int);
                    }
                }
            }
        }
    }

    fn offset(&self, x: u32, y: u32, z: u32) -> (k: usize)
        requires
            self.wf(),
            in_grid(self.spec_x_size(), self.spec_y_size(), self.spec_z_size(), x as int, y as int, z as int),
        ensures
            k == cell_offset(self.spec_y_size(), self.spec_z_size(), x as int, y as int, z as int),
            k < self.cells@.len(),
    {
        proof {
            lemma_offset_in_range(self.x_size as nat, self.y_size as nat, self.z_size as nat, x as int, y as int, z as int);
            let a = x * self.y_size + y;
            assert(x * self.y_size <= a);
            assert(a * self.z_size <= a * self.z_size + z);
            assert(a <= a * self.z_size) by (nonlinear_arith)
                requires z < self.z_size, 0 <= a;
        }
        ((x as usize) * (self.y_size as usize) + (y as usize)) * (self.z_size as usize) + (z as usize)
    }

    /// Whether the cell is occupied; false outside the grid.
    pub fn is_full(&self, x: u32, y: u32, z: u32) -> (r: bool)
        requires
            self.wf(),
        ensures
            r == self.filled(x as int, y as int, z as int),
    {
        if x < self.x_size && y < self.y_size && z < self.z_size {
            let k = self.offset(x, y, z);
            self.cells[k]
        } else {
            false
        }
    }

    /// True iff no cell is occupied.
    pub fn is_empty(&self) -> (r: bool)
        requires
            self.wf(),
        ensures
            r == self.spec_is_empty(),
    {
        let mut k: usize = 0;
        while k < self.cells.len()
            invariant
                self.wf(),
                k <= self.cells@.len(),
                forall|j: int| 0 <= j < k ==> !self.cells@[j],
            decreases self.cells@.len() - k,
        {
            if self.cells[k] {
                proof {
                    self.lemma_cell_of_offset(k as int);
                }
                return false;
            }
            k = k + 1;
        }
        proof {
            assert forall|x: int, y: int, z: int| !#[trigger] self.filled(x, y, z) by {
                if in_grid(self.x_size as nat, self.y_size as nat, self.z_size as nat, x, y, z) {
                    lemma_offset_in_range(self.x_size as nat, self.y_size as nat, self.z_size as nat, x, y, z);
                }
            }
        }
        true
    }

    proof fn lemma_cell_of_offset(&self, k: int)
        requires
            self.wf(),
            0 <= k < self.cells@.len(),
            self.cells@[k],
        ensures
            !self.spec_is_empty(),
    {
        lemma_decode(self.x_size as nat, self.y_size as nat, self.z_size as nat, k);
        let (x, y, z) = decode(self.y_size as nat, self.z_size as nat, k);
        assert(self.filled(x, y, z));
    }
}

} // verus!
