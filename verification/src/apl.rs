use vstd::prelude::*;

use crate::fbits::F32_ZERO;
use crate::fbits::div_bits;
use crate::fbits::div_f32;
use crate::fbits::u64_to_f32;
use crate::fbits::u64_to_f32_bits;
use crate::grid::VoxelGrid;
use crate::overlap::count_pairs;
use crate::overlap::lemma_count_pairs_bound;
use crate::utils::edge_cell;
use crate::utils::generate_edge;

verus! {

/// Number of set entries among the first `n` of a volume's data.
pub open spec fn count_true(s: Seq<bool>, n: int) -> nat
    decreases n,
{
    if n <= 0 {
        0
    } else {
        count_true(s, n - 1) + (if s[n - 1] {
            1nat
        } else {
            0nat
        })
    }
}

pub proof fn lemma_count_true_bound(s: Seq<bool>, n: int)
    ensures
        count_true(s, n) <= (if n <= 0 {
            0
        } else {
            n
        }),
    decreases n,
{
    if n > 0 {
        lemma_count_true_bound(s, n - 1);
    }
}

/// A boundary voxel of the other volume is either also a boundary voxel of
/// the reference or counts toward the difference, so the difference count
/// never exceeds the other volume's boundary total.
pub proof fn lemma_diff_le_total(r: Seq<bool>, o: Seq<bool>, n: int)
    ensures
        count_pairs(r, o, false, true, n) <= count_true(o, n),
    decreases n,
{
    if n > 0 {
        lemma_diff_le_total(r, o, n - 1);
    }
}

/// Added Path Length: per-slice (planar) boundaries of a reference and an
/// other volume, and the count of boundary voxels of the other volume that
/// have no boundary voxel of the reference at the same position.
pub struct APL {
    pub ref_arr: VoxelGrid,
    pub other_arr: VoxelGrid,
    pub diff_count: u64,
    pub other_total_count: u64,
}

impl APL {
    pub open spec fn wf(self) -> bool {
        &&& self.ref_arr.wf()
        &&& self.other_arr.wf()
        &&& self.ref_arr.same_shape(self.other_arr)
    }

    /// The two counters hold the boundary-difference counts of the stored
    /// boundary volumes.
    pub open spec fn counted(self) -> bool {
        &&& self.wf()
        &&& self.diff_count == count_pairs(
            self.ref_arr.data@,
            self.other_arr.data@,
            false,
            true,
            self.ref_arr.data.len() as int,
        )
        &&& self.other_total_count == count_true(
            self.other_arr.data@,
            self.ref_arr.data.len() as int,
        )
    }

    /// Planar boundary extraction of both volumes, counters still at zero.
    /// The volumes must share one shape; a shape mismatch is a caller error.
    pub fn new(ref_arr: &VoxelGrid, other_arr: &VoxelGrid) -> (r: APL)
        requires
            ref_arr.wf(),
            other_arr.wf(),
            ref_arr.same_shape(*other_arr),
        ensures
            r.wf(),
            r.ref_arr.same_shape(*ref_arr),
            forall|z: int, y: int, x: int|
                ref_arr.in_bounds(z, y, x) ==> r.ref_arr.cell(z, y, x) == edge_cell(
                    *ref_arr,
                    z,
                    y,
                    x,
                    true,
                ),
            forall|z: int, y: int, x: int|
                other_arr.in_bounds(z, y, x) ==> r.other_arr.cell(z, y, x) == edge_cell(
                    *other_arr,
                    z,
                    y,
                    x,
                    true,
                ),
            r.diff_count == 0 && r.other_total_count == 0,
    {
        APL {
            ref_arr: generate_edge(ref_arr, true),
            other_arr: generate_edge(other_arr, true),
            diff_count: 0,
            other_total_count: 0,
        }
    }

    /// Scan every position once: a set voxel of the other boundary counts
    /// toward the boundary total, and toward the difference when the
    /// reference boundary is clear there. The counters are computed afresh.
    #[verifier::loop_isolation(false)]
    pub fn execute(&mut self)
        requires
            old(self).wf(),
        ensures
            final(self).counted(),
            final(self).diff_count <= final(self).other_total_count,
            final(self).ref_arr == old(self).ref_arr,
            final(self).other_arr == old(self).other_arr,
    {
        self.diff_count = 0;
        self.other_total_count = 0;
        let n = self.ref_arr.data.len();
        let mut i: usize = 0;
        while i < n
            invariant
                i <= n,
                self.ref_arr == old(self).ref_arr,
                self.other_arr == old(self).other_arr,
                self.diff_count == count_pairs(
                    self.ref_arr.data@,
                    self.other_arr.data@,
                    false,
                    true,
                    i as int,
                ),
                self.other_total_count == count_true(self.other_arr.data@, i as int),
            decreases n - i,
        {
            proof {
                lemma_count_pairs_bound(self.ref_arr.data@, self.other_arr.data@, false, true,
                    i as int);
                lemma_count_true_bound(self.other_arr.data@, i as int);
            }
            let ref_val = self.ref_arr.data[i];
            let other_val = self.other_arr.data[i];
            if other_val {
                self.other_total_count = self.other_total_count + 1;
                if !ref_val {
                    self.diff_count = self.diff_count + 1;
                }
            }
            i = i + 1;
        }
        proof {
            lemma_diff_le_total(self.ref_arr.data@, self.other_arr.data@, n as int);
        }
    }

    /// The absolute added path length: boundary voxels of the other volume
    /// with no reference boundary voxel at the same position.
    pub fn apl(&self) -> (r: u64)
        ensures
            r == self.diff_count,
    {
        self.diff_count
    }

    /// The added path length as a fraction of the other volume's boundary
    /// total, as f32 bits; `None` exactly when that total is zero (the other
    /// volume has no boundary voxel), a case the plain quotient leaves
    /// undefined. A zero difference gives exactly 0.0.
    pub fn apl_normalized(&self) -> (r: Option<u32>)
        ensures
            r.is_none() <==> self.other_total_count == 0,
            self.other_total_count > 0 ==> r == Some(
                div_bits(
                    u64_to_f32_bits(self.diff_count),
                    u64_to_f32_bits(self.other_total_count),
                ),
            ),
            self.diff_count == 0 && self.other_total_count > 0 ==> r == Some(F32_ZERO),
    {
        if self.other_total_count == 0 {
            None
        } else {
            Some(div_f32(u64_to_f32(self.diff_count), u64_to_f32(self.other_total_count)))
        }
    }
}

} // verus!
