use vstd::prelude::*;

verus! {

/// A dense 3D array of booleans with dimensions (z, y, x), stored in
/// raster order: the voxel (z, y, x) lives at flat index (z*dim_y + y)*dim_x + x.
pub struct VoxelGrid {
    pub dim_z: usize,
    pub dim_y: usize,
    pub dim_x: usize,
    pub data: Vec<bool>,
}

impl VoxelGrid {
    /// The backing vector holds exactly one entry per voxel.
    pub open spec fn wf(self) -> bool {
        self.data.len() == self.dim_z * self.dim_y * self.dim_x
    }

    pub open spec fn flat(self, z: int, y: int, x: int) -> int {
        (z * self.dim_y + y) * self.dim_x + x
    }

    pub open spec fn in_bounds(self, z: int, y: int, x: int) -> bool {
        0 <= z < self.dim_z && 0 <= y < self.dim_y && 0 <= x < self.dim_x
    }

    pub open spec fn cell(self, z: int, y: int, x: int) -> bool {
        self.data@[self.flat(z, y, x)]
    }

    pub open spec fn same_shape(self, other: VoxelGrid) -> bool {
        self.dim_z == other.dim_z && self.dim_y == other.dim_y && self.dim_x == other.dim_x
    }

    /// A flat index of an in-bounds voxel lies inside the backing vector.
    pub proof fn lemma_flat_in_range(self, z: int, y: int, x: int)
        requires
            self.wf(),
            self.in_bounds(z, y, x),
        ensures
            0 <= self.flat(z, y, x) < self.data@.len(),
    {
        assert((z * self.dim_y + y) * self.dim_x + x < self.dim_z * self.dim_y * self.dim_x)
            by (nonlinear_arith)
            requires
                0 <= z < self.dim_z,
                0 <= y < self.dim_y,
                0 <= x < self.dim_x,
        ;
        assert(0 <= (z * self.dim_y + y) * self.dim_x + x) by (nonlinear_arith)
            requires
                0 <= z,
                0 <= y,
                0 <= x,
                self.dim_y >= 0,
                self.dim_x >= 0,
        ;
    }

    /// Distinct in-bounds voxels have distinct flat indices.
    pub proof fn lemma_flat_injective(self, z1: int, y1: int, x1: int, z2: int, y2: int, x2: int)
        requires
            self.in_bounds(z1, y1, x1),
            self.in_bounds(z2, y2, x2),
            self.flat(z1, y1, x1) == self.flat(z2, y2, x2),
        ensures
            z1 == z2 && y1 == y2 && x1 == x2,
    {
        assert(z1 == z2 && y1 == y2 && x1 == x2) by (nonlinear_arith)
            requires
                0 <= z1 < self.dim_z,
                0 <= y1 < self.dim_y,
                0 <= x1 < self.dim_x,
                0 <= z2 < self.dim_z,
                0 <= y2 < self.dim_y,
                0 <= x2 < self.dim_x,
                (z1 * self.dim_y + y1) * self.dim_x + x1 == (z2 * self.dim_y + y2) * self.dim_x
                    + x2,
        ;
    }

    /// A grid of the given dimensions with every voxel set to `fill`;
    /// `None` when the voxel count does not fit in `usize`.
    pub fn new_filled(dim_z: usize, dim_y: usize, dim_x: usize, fill: bool) -> (r: Option<
        VoxelGrid,
    >)
        ensures
            match r {
                Some(g) => {
                    &&& g.wf()
                    &&& g.dim_z == dim_z
                    &&& g.dim_y == dim_y
                    &&& g.dim_x == dim_x
                    &&& forall|z: int, y: int, x: int|
                        g.in_bounds(z, y, x) ==> g.cell(z, y, x) == fill
                },
                None => dim_z * dim_y * dim_x > usize::MAX,
            },
    {
        let zy = dim_z.checked_mul(dim_y);
        match zy {
            None => {
                proof {
                    assert(dim_z * dim_y * dim_x > usize::MAX || dim_x == 0) by (nonlinear_arith)
                        requires
                            dim_z * dim_y > usize::MAX,
                    ;
                    if dim_x == 0 {
                        assert(dim_z * dim_y > usize::MAX);
                    }
                }
                if dim_x == 0 {
                    // No voxels at all: the empty grid is well formed.
                    let g = VoxelGrid { dim_z, dim_y, dim_x, data: Vec::new() };
                    proof {
                        assert(dim_z * dim_y * dim_x == 0) by (nonlinear_arith)
                            requires
                                dim_x == 0,
                        ;
                    }
                    Some(g)
                } else {
                    proof {
                        assert(dim_z * dim_y * dim_x >= dim_z * dim_y) by (nonlinear_arith)
                            requires
                                dim_x >= 1,
                                dim_z * dim_y >= 0,
                        ;
                    }
                    None
                }
            },
            Some(p) => {
                match p.checked_mul(dim_x) {
                    None => {
                        proof {
                            assert(dim_z * dim_y * dim_x > usize::MAX) by (nonlinear_arith)
                                requires
                                    p == dim_z * dim_y,
                                    p * dim_x > usize::MAX,
                            ;
                        }
                        None
                    },
                    Some(total) => {
                        let data = vec![fill; total];
                        let g = VoxelGrid { dim_z, dim_y, dim_x, data };
                        proof {
                            assert forall|z: int, y: int, x: int|
                                g.in_bounds(z, y, x) implies g.cell(z, y, x) == fill by {
                                g.lemma_flat_in_range(z, y, x);
                            }
                        }
                        Some(g)
                    },
                }
            },
        }
    }

    /// An exact copy of this grid.
    #[verifier::loop_isolation(false)]
    pub fn duplicate(&self) -> (r: VoxelGrid)
        ensures
            r.dim_z == self.dim_z,
            r.dim_y == self.dim_y,
            r.dim_x == self.dim_x,
            r.data@ == self.data@,
    {
        let mut data: Vec<bool> = Vec::new();
        let mut i: usize = 0;
        let n = self.data.len();
        while i < n
            invariant
                i <= n,
                data@ =~= self.data@.take(i as int),
            decreases n - i,
        {
            data.push(self.data[i]);
            i = i + 1;
        }
        proof {
            assert(data@ =~= self.data@);
        }
        VoxelGrid { dim_z: self.dim_z, dim_y: self.dim_y, dim_x: self.dim_x, data }
    }

    /// Read the voxel at (z, y, x).
    pub fn get(&self, z: usize, y: usize, x: usize) -> (r: bool)
        requires
            self.wf(),
            self.in_bounds(z as int, y as int, x as int),
        ensures
            r == self.cell(z as int, y as int, x as int),
    {
        proof {
            self.lemma_flat_in_range(z as int, y as int, x as int);
            assert(z * self.dim_y + y < self.dim_z * self.dim_y) by (nonlinear_arith)
                requires
                    0 <= z < self.dim_z,
                    0 <= y < self.dim_y,
            ;
            assert(self.dim_z * self.dim_y * self.dim_x >= self.dim_z * self.dim_y)
                by (nonlinear_arith)
                requires
                    self.dim_x >= 1,
                    self.dim_z * self.dim_y >= 0,
            ;
        }
        let i = (z * self.dim_y + y) * self.dim_x + x;
        self.data[i]
    }

    /// Overwrite the voxel at (z, y, x), leaving every other voxel unchanged.
    pub fn set(&mut self, z: usize, y: usize, x: usize, v: bool)
        requires
            old(self).wf(),
            old(self).in_bounds(z as int, y as int, x as int),
        ensures
            final(self).wf(),
            final(self).same_shape(*old(self)),
            final(self).cell(z as int, y as int, x as int) == v,
            forall|z2: int, y2: int, x2: int|
                final(self).in_bounds(z2, y2, x2) && !(z2 == z && y2 == y && x2 == x)
                    ==> final(self).cell(z2, y2, x2) == old(self).cell(z2, y2, x2),
    {
        proof {
            self.lemma_flat_in_range(z as int, y as int, x as int);
            assert(z * self.dim_y + y < self.dim_z * self.dim_y) by (nonlinear_arith)
                requires
                    0 <= z < self.dim_z,
                    0 <= y < self.dim_y,
            ;
            assert(self.dim_z * self.dim_y * self.dim_x >= self.dim_z * self.dim_y)
                by (nonlinear_arith)
                requires
                    self.dim_x >= 1,
                    self.dim_z * self.dim_y >= 0,
            ;
        }
        let i = (z * self.dim_y + y) * self.dim_x + x;
        let slot = &mut self.data[i];
        *slot = v;
        proof {
            assert forall|z2: int, y2: int, x2: int|
                self.in_bounds(z2, y2, x2) && !(z2 == z && y2 == y && x2 == x) implies self.cell(
                z2,
                y2,
                x2,
            ) == old(self).cell(z2, y2, x2) by {
                self.lemma_flat_in_range(z2, y2, x2);
                if self.flat(z2, y2, x2) == self.flat(z as int, y as int, x as int) {
                    self.lemma_flat_injective(z2, y2, x2, z as int, y as int, x as int);
                }
            }
        }
    }
}

/// The flat index of the coordinate triple recovered from a flat index is
/// that index again, and the triple is in bounds.
pub proof fn lemma_flat_of_coord(g: VoxelGrid, i: int)
    requires
        g.wf(),
        0 <= i < g.data.len(),
    ensures
        ({
            let zz = i / (g.dim_y * g.dim_x) as int;
            let rem = i % (g.dim_y * g.dim_x) as int;
            let yy = rem / g.dim_x as int;
            let xx = rem % g.dim_x as int;
            g.in_bounds(zz, yy, xx) && g.flat(zz, yy, xx) == i
        }),
{
    assert((g.dim_z * g.dim_y) * g.dim_x == g.dim_z * (g.dim_y * g.dim_x)) by (nonlinear_arith);
    assert(g.dim_z > 0 && g.dim_y * g.dim_x > 0 && g.dim_x > 0 && g.dim_y > 0) by (nonlinear_arith)
        requires
            0 <= i,
            i < g.dim_z * (g.dim_y * g.dim_x),
            g.dim_z >= 0,
            g.dim_y >= 0,
            g.dim_x >= 0,
    ;
    let plane = (g.dim_y * g.dim_x) as int;
    let zz = i / plane;
    let rem = i % plane;
    vstd::arithmetic::div_mod::lemma_fundamental_div_mod(i, plane);
    vstd::arithmetic::div_mod::lemma_mod_bound(i, plane);
    vstd::arithmetic::div_mod::lemma_div_pos_is_pos(i, plane);
    let yy = rem / g.dim_x as int;
    let xx = rem % g.dim_x as int;
    vstd::arithmetic::div_mod::lemma_fundamental_div_mod(rem, g.dim_x as int);
    vstd::arithmetic::div_mod::lemma_mod_bound(rem, g.dim_x as int);
    vstd::arithmetic::div_mod::lemma_div_pos_is_pos(rem, g.dim_x as int);
    assert(zz < g.dim_z) by (nonlinear_arith)
        requires
            i == plane * zz + rem,
            0 <= rem < plane,
            0 <= zz,
            i < g.dim_z * plane,
            plane > 0,
    ;
    assert(yy < g.dim_y) by (nonlinear_arith)
        requires
            rem == (g.dim_x as int) * yy + xx,
            0 <= xx < g.dim_x,
            0 <= yy,
            rem < g.dim_y * g.dim_x,
            g.dim_x > 0,
    ;
    assert((zz * g.dim_y + yy) * g.dim_x + xx == i) by (nonlinear_arith)
        requires
            i == (g.dim_y * g.dim_x) * zz + rem,
            rem == (g.dim_x as int) * yy + xx,
    ;
}

} // verus!
