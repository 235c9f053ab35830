use vstd::prelude::*;

use crate::fbits::F32_ONE;
use crate::fbits::F32_ZERO;
use crate::fbits::div_bits;
use crate::fbits::div_f32;
use crate::fbits::u64_to_f32;
use crate::fbits::u64_to_f32_bits;
use crate::grid::VoxelGrid;

verus! {

/// Number of positions among the first `n` where the reference holds `rv`
/// and the other volume holds `ov`.
pub open spec fn count_pairs(r: Seq<bool>, o: Seq<bool>, rv: bool, ov: bool, n: int) -> nat
    decreases n,
{
    if n <= 0 {
        0
    } else {
        count_pairs(r, o, rv, ov, n - 1) + (if r[n - 1] == rv && o[n - 1] == ov {
            1nat
        } else {
            0nat
        })
    }
}

pub proof fn lemma_count_pairs_bound(r: Seq<bool>, o: Seq<bool>, rv: bool, ov: bool, n: int)
    ensures
        count_pairs(r, o, rv, ov, n) <= (if n <= 0 {
            0
        } else {
            n
        }),
    decreases n,
{
    if n > 0 {
        lemma_count_pairs_bound(r, o, rv, ov, n - 1);
    }
}

/// Every voxel pair falls in exactly one of the four confusion classes, so
/// the four counts sum to the number of voxels.
pub proof fn lemma_count_pairs_total(r: Seq<bool>, o: Seq<bool>, n: int)
    requires
        n >= 0,
    ensures
        count_pairs(r, o, true, true, n) + count_pairs(r, o, false, false, n) + count_pairs(
            r,
            o,
            false,
            true,
            n,
        ) + count_pairs(r, o, true, false, n) == n,
    decreases n,
{
    if n > 0 {
        lemma_count_pairs_total(r, o, n - 1);
    }
}

/// Identical volumes disagree nowhere: no false positives, no false
/// negatives.
pub proof fn lemma_identical_counts(r: Seq<bool>, o: Seq<bool>, n: int)
    requires
        forall|i: int| 0 <= i < n ==> r[i] == o[i],
    ensures
        count_pairs(r, o, false, true, n) == 0,
        count_pairs(r, o, true, false, n) == 0,
    decreases n,
{
    if n > 0 {
        lemma_identical_counts(r, o, n - 1);
    }
}

/// A position set in both volumes makes the true-positive count positive.
pub proof fn lemma_common_voxel_counts(r: Seq<bool>, o: Seq<bool>, n: int, i: int)
    requires
        0 <= i < n,
        r[i],
        o[i],
    ensures
        count_pairs(r, o, true, true, n) >= 1,
    decreases n,
{
    if i < n - 1 {
        lemma_common_voxel_counts(r, o, n - 1, i);
    }
}

/// Disjoint foregrounds have no true positives, and any voxel set in either
/// volume is then a false positive or a false negative.
pub proof fn lemma_disjoint_counts(r: Seq<bool>, o: Seq<bool>, n: int)
    requires
        forall|i: int| 0 <= i < n ==> !(r[i] && o[i]),
    ensures
        count_pairs(r, o, true, true, n) == 0,
    decreases n,
{
    if n > 0 {
        lemma_disjoint_counts(r, o, n - 1);
    }
}

/// A position set in either volume makes the disagreement counts positive
/// when the foregrounds are disjoint.
pub proof fn lemma_disjoint_some_voxel(r: Seq<bool>, o: Seq<bool>, n: int, i: int)
    requires
        0 <= i < n,
        r[i] || o[i],
        !(r[i] && o[i]),
    ensures
        count_pairs(r, o, false, true, n) + count_pairs(r, o, true, false, n) >= 1,
    decreases n,
{
    if i < n - 1 {
        lemma_disjoint_some_voxel(r, o, n - 1, i);
    }
}

/// Two volumes hold the same mask and at least one voxel is set in both.
pub open spec fn identical_with_foreground(r: Seq<bool>, o: Seq<bool>) -> bool {
    &&& r.len() == o.len()
    &&& forall|i: int| 0 <= i < r.len() ==> r[i] == o[i]
    &&& exists|i: int| 0 <= i < r.len() && r[i] && o[i]
}

/// No voxel is set in both volumes, and at least one voxel is set somewhere.
pub open spec fn disjoint_with_foreground(r: Seq<bool>, o: Seq<bool>) -> bool {
    &&& r.len() == o.len()
    &&& forall|i: int| 0 <= i < r.len() ==> !(r[i] && o[i])
    &&& exists|i: int| 0 <= i < r.len() && (r[i] || o[i])
}

proof fn lemma_grid_level_counts(r: Seq<bool>, o: Seq<bool>, n: int)
    requires
        n == r.len(),
        r.len() == o.len(),
    ensures
        identical_with_foreground(r, o) ==> count_pairs(r, o, false, true, n) == 0 && count_pairs(
            r,
            o,
            true,
            false,
            n,
        ) == 0 && count_pairs(r, o, true, true, n) >= 1,
        disjoint_with_foreground(r, o) ==> count_pairs(r, o, true, true, n) == 0 && count_pairs(
            r,
            o,
            false,
            true,
            n,
        ) + count_pairs(r, o, true, false, n) >= 1,
{
    if identical_with_foreground(r, o) {
        lemma_identical_counts(r, o, n);
        let i = choose|i: int| 0 <= i < r.len() && r[i] && o[i];
        lemma_common_voxel_counts(r, o, n, i);
    }
    if disjoint_with_foreground(r, o) {
        lemma_disjoint_counts(r, o, n);
        let i = choose|i: int| 0 <= i < r.len() && (r[i] || o[i]);
        lemma_disjoint_some_voxel(r, o, n, i);
    }
}

/// Voxel-wise confusion matrix between two volumes of the same shape.
pub struct ConfusionMatrix {
    pub ref_arr: VoxelGrid,
    pub other_arr: VoxelGrid,
    pub tpos: u64,
    pub tneg: u64,
    pub fpos: u64,
    pub fneg: u64,
}

impl ConfusionMatrix {
    /// Both grids are well formed, share one shape, and are small enough for
    /// the count arithmetic (at most 2^62 voxels).
    pub open spec fn wf(self) -> bool {
        &&& self.ref_arr.wf()
        &&& self.other_arr.wf()
        &&& self.ref_arr.same_shape(self.other_arr)
        &&& self.ref_arr.data.len() <= 0x4000_0000_0000_0000
    }

    /// The four counters hold the confusion counts of the stored volumes.
    pub open spec fn counted(self) -> bool {
        &&& self.wf()
        &&& self.tpos == count_pairs(
            self.ref_arr.data@,
            self.other_arr.data@,
            true,
            true,
            self.ref_arr.data.len() as int,
        )
        &&& self.tneg == count_pairs(
            self.ref_arr.data@,
            self.other_arr.data@,
            false,
            false,
            self.ref_arr.data.len() as int,
        )
        &&& self.fpos == count_pairs(
            self.ref_arr.data@,
            self.other_arr.data@,
            false,
            true,
            self.ref_arr.data.len() as int,
        )
        &&& self.fneg == count_pairs(
            self.ref_arr.data@,
            self.other_arr.data@,
            true,
            false,
            self.ref_arr.data.len() as int,
        )
    }

    /// A matrix over the two volumes with all counters still at zero.
    /// The volumes must share one shape; a shape mismatch is a caller error.
    pub fn new(ref_arr: &VoxelGrid, other_arr: &VoxelGrid) -> (r: ConfusionMatrix)
        requires
            ref_arr.wf(),
            other_arr.wf(),
            ref_arr.same_shape(*other_arr),
            ref_arr.data.len() <= 0x4000_0000_0000_0000,
        ensures
            r.wf(),
            r.ref_arr.data@ == ref_arr.data@,
            r.other_arr.data@ == other_arr.data@,
            r.ref_arr.same_shape(*ref_arr),
            r.tpos == 0 && r.tneg == 0 && r.fpos == 0 && r.fneg == 0,
    {
        ConfusionMatrix {
            ref_arr: ref_arr.duplicate(),
            other_arr: other_arr.duplicate(),
            tpos: 0,
            tneg: 0,
            fpos: 0,
            fneg: 0,
        }
    }

    /// Scan the whole grid once and classify every voxel pair:
    /// (true, true) counts as a true positive, (false, false) as a true
    /// negative, (false, true) as a false positive and (true, false) as a
    /// false negative. The counters are computed afresh.
    #[verifier::loop_isolation(false)]
    pub fn execute(&mut self)
        requires
            old(self).wf(),
        ensures
            final(self).counted(),
            final(self).ref_arr == old(self).ref_arr,
            final(self).other_arr == old(self).other_arr,
    {
        self.tpos = 0;
        self.tneg = 0;
        self.fpos = 0;
        self.fneg = 0;
        let n = self.ref_arr.data.len();
        let mut i: usize = 0;
        while i < n
            invariant
                i <= n,
                self.ref_arr == old(self).ref_arr,
                self.other_arr == old(self).other_arr,
                self.tpos == count_pairs(
                    self.ref_arr.data@,
                    self.other_arr.data@,
                    true,
                    true,
                    i as int,
                ),
                self.tneg == count_pairs(
                    self.ref_arr.data@,
                    self.other_arr.data@,
                    false,
                    false,
                    i as int,
                ),
                self.fpos == count_pairs(
                    self.ref_arr.data@,
                    self.other_arr.data@,
                    false,
                    true,
                    i as int,
                ),
                self.fneg == count_pairs(
                    self.ref_arr.data@,
                    self.other_arr.data@,
                    true,
                    false,
                    i as int,
                ),
            decreases n - i,
        {
            proof {
                lemma_count_pairs_bound(self.ref_arr.data@, self.other_arr.data@, true, true,
                    i as int);
                lemma_count_pairs_bound(self.ref_arr.data@, self.other_arr.data@, false, false,
                    i as int);
                lemma_count_pairs_bound(self.ref_arr.data@, self.other_arr.data@, false, true,
                    i as int);
                lemma_count_pairs_bound(self.ref_arr.data@, self.other_arr.data@, true, false,
                    i as int);
            }
            let ref_val = self.ref_arr.data[i];
            let other_val = self.other_arr.data[i];
            if ref_val && other_val {
                self.tpos = self.tpos + 1;
            } else if !ref_val && !other_val {
                self.tneg = self.tneg + 1;
            } else if !ref_val && other_val {
                self.fpos = self.fpos + 1;
            } else {
                self.fneg = self.fneg + 1;
            }
            i = i + 1;
        }
    }

    /// Dice coefficient 2*TP / (2*TP + FP + FN) as f32 bits; `None` exactly
    /// when the denominator is zero (both volumes entirely empty), a case
    /// left undefined by the usual formula. Identical volumes with at least
    /// one set voxel give exactly 1.0, disjoint foregrounds with at least one
    /// set voxel give exactly 0.0.
    pub fn dc(&self) -> (r: Option<u32>)
        requires
            self.counted(),
        ensures
            r.is_none() <==> 2 * self.tpos + self.fpos + self.fneg == 0,
            2 * self.tpos + self.fpos + self.fneg > 0 ==> r == Some(
                div_bits(
                    u64_to_f32_bits((2 * self.tpos) as u64),
                    u64_to_f32_bits((2 * self.tpos + self.fpos + self.fneg) as u64),
                ),
            ),
            self.fpos == 0 && self.fneg == 0 && self.tpos > 0 ==> r == Some(F32_ONE),
            self.tpos == 0 && self.fpos + self.fneg > 0 ==> r == Some(F32_ZERO),
            identical_with_foreground(self.ref_arr.data@, self.other_arr.data@) ==> r == Some(
                F32_ONE,
            ),
            disjoint_with_foreground(self.ref_arr.data@, self.other_arr.data@) ==> r == Some(
                F32_ZERO,
            ),
    {
        proof {
            let rs = self.ref_arr.data@;
            let os = self.other_arr.data@;
            let n = self.ref_arr.data.len() as int;
            lemma_count_pairs_total(rs, os, n);
            lemma_grid_level_counts(rs, os, n);
        }
        let den = 2 * self.tpos + self.fpos + self.fneg;
        if den == 0 {
            None
        } else {
            Some(div_f32(u64_to_f32(2 * self.tpos), u64_to_f32(den)))
        }
    }

    /// Jaccard coefficient TP / (TP + FP + FN) as f32 bits; `None` exactly
    /// when the denominator is zero (both volumes entirely empty). Identical
    /// volumes with at least one set voxel give exactly 1.0, disjoint
    /// foregrounds with at least one set voxel give exactly 0.0.
    pub fn jc(&self) -> (r: Option<u32>)
        requires
            self.counted(),
        ensures
            r.is_none() <==> self.tpos + self.fpos + self.fneg == 0,
            self.tpos + self.fpos + self.fneg > 0 ==> r == Some(
                div_bits(
                    u64_to_f32_bits(self.tpos),
                    u64_to_f32_bits((self.tpos + self.fpos + self.fneg) as u64),
                ),
            ),
            self.fpos == 0 && self.fneg == 0 && self.tpos > 0 ==> r == Some(F32_ONE),
            self.tpos == 0 && self.fpos + self.fneg > 0 ==> r == Some(F32_ZERO),
            identical_with_foreground(self.ref_arr.data@, self.other_arr.data@) ==> r == Some(
                F32_ONE,
            ),
            disjoint_with_foreground(self.ref_arr.data@, self.other_arr.data@) ==> r == Some(
                F32_ZERO,
            ),
    {
        proof {
            let rs = self.ref_arr.data@;
            let os = self.other_arr.data@;
            let n = self.ref_arr.data.len() as int;
            lemma_count_pairs_total(rs, os, n);
            lemma_grid_level_counts(rs, os, n);
        }
        let den = self.tpos + self.fpos + self.fneg;
        if den == 0 {
            None
        } else {
            Some(div_f32(u64_to_f32(self.tpos), u64_to_f32(den)))
        }
    }
}

} // verus!
