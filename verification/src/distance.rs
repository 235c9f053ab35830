use vstd::prelude::*;

use crate::fbits::F32_INF;
use crate::fbits::F32_ONE;
use crate::fbits::F32_TWO;
use crate::fbits::F32_ZERO;
use crate::fbits::div_bits;
use crate::fbits::div_f32;
use crate::fbits::div_f64;
use crate::fbits::div_f64_bits;
use crate::fbits::f64_to_f32;
use crate::fbits::f64_to_f32_bits;
use crate::fbits::trunc_bits;
use crate::fbits::trunc_f32_u64;
use crate::fbits::u64_to_f64;
use crate::fbits::u64_to_f64_bits;
use crate::fbits::add_bits;
use crate::fbits::add_f32;
use crate::fbits::mul_bits;
use crate::fbits::mul_f32;
use crate::fbits::sqrt_bits;
use crate::fbits::sqrt_f32;
use crate::fbits::sub_bits;
use crate::fbits::sub_f32;
use crate::fbits::u64_to_f32;
use crate::fbits::u64_to_f32_bits;
use crate::grid::VoxelGrid;
use crate::utils::edge_cell;
use crate::utils::generate_edge;

verus! {

/// Physical voxel spacing along (z, y, x), each component the f32 bit
/// pattern of a positive value below 2^111 (so that a physical coordinate of
/// a voxel index below 65536 stays finite).
#[derive(Clone, Copy)]
pub struct Spacing {
    pub z: u32,
    pub y: u32,
    pub x: u32,
}

impl Spacing {
    pub open spec fn wf(self) -> bool {
        &&& 0 < self.z < crate::fbits::F32_HUGE
        &&& 0 < self.y < crate::fbits::F32_HUGE
        &&& 0 < self.x < crate::fbits::F32_HUGE
    }

    /// A spacing from three f32 bit patterns; `None` unless all three encode
    /// positive values below 2^111.
    pub fn new(z: u32, y: u32, x: u32) -> (r: Option<Spacing>)
        ensures
            match r {
                Some(s) => s.wf() && s.z == z && s.y == y && s.x == x,
                None => !(Spacing { z, y, x }).wf(),
            },
    {
        if 0 < z && z < crate::fbits::F32_HUGE && 0 < y && y < crate::fbits::F32_HUGE && 0 < x
            && x < crate::fbits::F32_HUGE {
            Some(Spacing { z, y, x })
        } else {
            None
        }
    }
}

/// The integer index triple of one voxel.
#[derive(PartialEq, Eq, Structural, Clone, Copy)]
pub struct VoxelCoord {
    pub z: usize,
    pub y: usize,
    pub x: usize,
}

/// Each index fits in sixteen bits, so its physical coordinate stays finite.
pub open spec fn coord_in_range(c: VoxelCoord) -> bool {
    c.z < 0x10000 && c.y < 0x10000 && c.x < 0x10000
}

/// The physical coordinate of index `i` along an axis with spacing `s`:
/// the index converted to f32, times the spacing.
pub open spec fn phys_bits(i: usize, s: u32) -> u32 {
    mul_bits(u64_to_f32_bits(i as u64), s)
}

/// The Euclidean distance between the physical points of voxels `a` and `b`:
/// per-axis deltas (b minus a), squared, summed left to right, square root;
/// all in f32.
pub open spec fn pair_dist_bits(a: VoxelCoord, b: VoxelCoord, s: Spacing) -> u32 {
    let dz = sub_bits(phys_bits(b.z, s.z), phys_bits(a.z, s.z));
    let dy = sub_bits(phys_bits(b.y, s.y), phys_bits(a.y, s.y));
    let dx = sub_bits(phys_bits(b.x, s.x), phys_bits(a.x, s.x));
    sqrt_bits(add_bits(add_bits(mul_bits(dz, dz), mul_bits(dy, dy)), mul_bits(dx, dx)))
}

/// The distance from voxel `a` to voxel `b` in physical space. The result is
/// non-negative and not a NaN, and the distance from a voxel to itself is
/// exactly zero.
pub fn pair_distance(a: &VoxelCoord, b: &VoxelCoord, s: &Spacing) -> (r: u32)
    requires
        s.wf(),
        coord_in_range(*a),
        coord_in_range(*b),
    ensures
        r == pair_dist_bits(*a, *b, *s),
        r <= F32_INF,
        a == b ==> r == F32_ZERO,
{
    let az = mul_f32(u64_to_f32(a.z as u64), s.z);
    let ay = mul_f32(u64_to_f32(a.y as u64), s.y);
    let ax = mul_f32(u64_to_f32(a.x as u64), s.x);
    let bz = mul_f32(u64_to_f32(b.z as u64), s.z);
    let by = mul_f32(u64_to_f32(b.y as u64), s.y);
    let bx = mul_f32(u64_to_f32(b.x as u64), s.x);
    let dz = sub_f32(bz, az);
    let dy = sub_f32(by, ay);
    let dx = sub_f32(bx, ax);
    let sz = mul_f32(dz, dz);
    let sy = mul_f32(dy, dy);
    let sx = mul_f32(dx, dx);
    let sum = add_f32(add_f32(sz, sy), sx);
    sqrt_f32(sum)
}

/// The coordinate triple of the voxel at flat index `i` of grid `g`.
pub open spec fn coord_of(g: VoxelGrid, i: int) -> VoxelCoord {
    VoxelCoord {
        z: (i / (g.dim_y * g.dim_x) as int) as usize,
        y: ((i % (g.dim_y * g.dim_x) as int) / g.dim_x as int) as usize,
        x: ((i % (g.dim_y * g.dim_x) as int) % g.dim_x as int) as usize,
    }
}

/// The coordinates of the set voxels among the first `n` positions of `g`,
/// in raster (z, y, x) order.
pub open spec fn point_seq(g: VoxelGrid, n: int) -> Seq<VoxelCoord>
    decreases n,
{
    if n <= 0 {
        Seq::empty()
    } else if g.data@[n - 1] {
        point_seq(g, n - 1).push(coord_of(g, n - 1))
    } else {
        point_seq(g, n - 1)
    }
}

/// A volume with a set voxel yields a non-empty point sequence: together
/// with the boundary lemmas, two equal masks with any set voxel give a
/// non-empty all-zero distance list, hence a Hausdorff distance of exactly
/// zero.
pub proof fn lemma_point_seq_nonempty(g: VoxelGrid, n: int)
    requires
        exists|i: int| 0 <= i < n && g.data@[i],
    ensures
        point_seq(g, n).len() > 0,
    decreases n,
{
    let i = choose|i: int| 0 <= i < n && g.data@[i];
    if i < n - 1 {
        lemma_point_seq_nonempty(g, n - 1);
    }
}

/// The point sequence depends only on the data and the (y, x) dimensions.
pub proof fn lemma_point_seq_congruent(g1: VoxelGrid, g2: VoxelGrid, n: int)
    requires
        g1.data@ == g2.data@,
        g1.dim_y == g2.dim_y,
        g1.dim_x == g2.dim_x,
    ensures
        point_seq(g1, n) == point_seq(g2, n),
    decreases n,
{
    if n > 0 {
        lemma_point_seq_congruent(g1, g2, n - 1);
    }
}

/// Every collected point of a grid with dimensions at most 65536 is in
/// sixteen-bit range.
pub proof fn lemma_point_seq_in_range(g: VoxelGrid, n: int)
    requires
        g.wf(),
        n <= g.data.len(),
        g.dim_z <= 0x10000,
        g.dim_y <= 0x10000,
        g.dim_x <= 0x10000,
    ensures
        forall|k: int|
            0 <= k < point_seq(g, n).len() ==> #[trigger] coord_in_range(point_seq(g, n)[k]),
    decreases n,
{
    if n > 0 {
        lemma_point_seq_in_range(g, n - 1);
        assert forall|k: int| 0 <= k < point_seq(g, n).len() implies #[trigger] coord_in_range(
            point_seq(g, n)[k],
        ) by {
            if g.data@[n - 1] {
                assert(point_seq(g, n) == point_seq(g, n - 1).push(coord_of(g, n - 1)));
                if k < point_seq(g, n - 1).len() {
                    assert(point_seq(g, n)[k] == point_seq(g, n - 1)[k]);
                    assert(coord_in_range(point_seq(g, n - 1)[k]));
                } else {
                    crate::grid::lemma_flat_of_coord(g, n - 1);
                    assert(point_seq(g, n)[k] == coord_of(g, n - 1));
                }
            } else {
                assert(point_seq(g, n) == point_seq(g, n - 1));
                assert(coord_in_range(point_seq(g, n - 1)[k]));
            }
        }
    }
}

/// Collect the coordinates of all set voxels of `g` in raster order.
#[verifier::loop_isolation(false)]
fn collect_coords(g: &VoxelGrid) -> (r: Vec<VoxelCoord>)
    requires
        g.wf(),
    ensures
        r@ == point_seq(*g, g.data.len() as int),
{
    let mut out: Vec<VoxelCoord> = Vec::new();
    let n = g.data.len();
    if n == 0 {
        return out;
    }
    proof {
        assert(g.dim_y * g.dim_x <= g.dim_z * g.dim_y * g.dim_x && g.dim_x <= g.dim_y * g.dim_x
            && (g.dim_z * g.dim_y) * g.dim_x == g.dim_z * (g.dim_y * g.dim_x)
            && g.dim_y * g.dim_x > 0) by (nonlinear_arith)
            requires
                g.dim_z * g.dim_y * g.dim_x > 0,
        ;
    }
    let plane = g.dim_y * g.dim_x;
    let mut i: usize = 0;
    while i < n
        invariant
            i <= n,
            plane == g.dim_y * g.dim_x,
            plane > 0,
            g.dim_x > 0,
            out@ == point_seq(*g, i as int),
        decreases n - i,
    {
        if g.data[i] {
            let z = i / plane;
            let rem = i % plane;
            let y = rem / g.dim_x;
            let x = rem % g.dim_x;
            out.push(VoxelCoord { z, y, x });
        }
        i = i + 1;
    }
    out
}

/// The least distance from point `p` to any point of the non-empty sequence
/// `others`, scanned front to back, keeping the strictly smaller value.
pub open spec fn min_dist_bits(p: VoxelCoord, others: Seq<VoxelCoord>, s: Spacing) -> u32
    recommends
        others.len() > 0,
    decreases others.len(),
{
    if others.len() <= 1 {
        pair_dist_bits(p, others[0], s)
    } else {
        let rest = min_dist_bits(p, others.drop_last(), s);
        let d = pair_dist_bits(p, others.last(), s);
        if d < rest {
            d
        } else {
            rest
        }
    }
}

/// The largest entry of a non-empty sequence of f32 bit patterns.
pub open spec fn max_bits(s: Seq<u32>) -> u32
    recommends
        s.len() > 0,
    decreases s.len(),
{
    if s.len() <= 1 {
        s[0]
    } else {
        let rest = max_bits(s.drop_last());
        if s.last() > rest {
            s.last()
        } else {
            rest
        }
    }
}

/// The smallest entry of a non-empty sequence of f32 bit patterns.
pub open spec fn min_bits(s: Seq<u32>) -> u32
    recommends
        s.len() > 0,
    decreases s.len(),
{
    if s.len() <= 1 {
        s[0]
    } else {
        let rest = min_bits(s.drop_last());
        if s.last() < rest {
            s.last()
        } else {
            rest
        }
    }
}

pub proof fn lemma_max_bits_bounds(s: Seq<u32>)
    requires
        s.len() > 0,
    ensures
        forall|k: int| 0 <= k < s.len() ==> s[k] <= max_bits(s),
        exists|k: int| 0 <= k < s.len() && s[k] == max_bits(s),
    decreases s.len(),
{
    if s.len() == 1 {
        assert(s[0] == max_bits(s));
    } else {
        lemma_max_bits_bounds(s.drop_last());
        let m = max_bits(s.drop_last());
        assert forall|k: int| 0 <= k < s.len() implies s[k] <= max_bits(s) by {
            if k < s.len() - 1 {
                assert(s[k] == s.drop_last()[k]);
                assert(s.drop_last()[k] <= m);
            }
        }
        let k0 = choose|k: int|
            0 <= k < s.drop_last().len() && s.drop_last()[k] == max_bits(s.drop_last());
        if s.last() > m {
            assert(s[s.len() - 1] == max_bits(s));
        } else {
            assert(s[k0] == s.drop_last()[k0]);
            assert(s[k0] == max_bits(s));
        }
    }
}

pub proof fn lemma_min_bits_bounds(s: Seq<u32>)
    requires
        s.len() > 0,
    ensures
        forall|k: int| 0 <= k < s.len() ==> min_bits(s) <= s[k],
        exists|k: int| 0 <= k < s.len() && s[k] == min_bits(s),
    decreases s.len(),
{
    if s.len() == 1 {
        assert(s[0] == min_bits(s));
    } else {
        lemma_min_bits_bounds(s.drop_last());
        let m = min_bits(s.drop_last());
        assert forall|k: int| 0 <= k < s.len() implies min_bits(s) <= s[k] by {
            if k < s.len() - 1 {
                assert(s[k] == s.drop_last()[k]);
                assert(m <= s.drop_last()[k]);
            }
        }
        let k0 = choose|k: int|
            0 <= k < s.drop_last().len() && s.drop_last()[k] == min_bits(s.drop_last());
        if s.last() < m {
            assert(s[s.len() - 1] == min_bits(s));
        } else {
            assert(s[k0] == s.drop_last()[k0]);
            assert(s[k0] == min_bits(s));
        }
    }
}

/// Directed distance map: the volumetric boundaries of a reference and an
/// other volume, their boundary points in physical space, and for every
/// reference boundary point the least distance to the other boundary.
pub struct HausdorffMapDirected {
    pub ref_arr: VoxelGrid,
    pub other_arr: VoxelGrid,
    pub zyx_spacing: Spacing,
    pub ref_coords: Vec<VoxelCoord>,
    pub other_coords: Vec<VoxelCoord>,
    pub distances: Vec<u32>,
}

impl HausdorffMapDirected {
    /// Grids are well formed, share one shape with dimensions at most 65536,
    /// and the spacing is valid.
    pub open spec fn wf(self) -> bool {
        &&& self.ref_arr.wf()
        &&& self.other_arr.wf()
        &&& self.ref_arr.same_shape(self.other_arr)
        &&& self.ref_arr.dim_z <= 0x10000
        &&& self.ref_arr.dim_y <= 0x10000
        &&& self.ref_arr.dim_x <= 0x10000
        &&& self.zyx_spacing.wf()
    }

    /// The coordinate vectors hold the boundary points of the stored
    /// boundary volumes, and the distance list holds, for each reference
    /// point in order, its least distance to the other points. With no other
    /// boundary point there are no distances at all.
    pub open spec fn computed(self) -> bool {
        &&& self.wf()
        &&& self.ref_coords@ == point_seq(self.ref_arr, self.ref_arr.data.len() as int)
        &&& self.other_coords@ == point_seq(self.other_arr, self.other_arr.data.len() as int)
        &&& if self.other_coords@.len() == 0 {
            self.distances@.len() == 0
        } else {
            &&& self.distances@.len() == self.ref_coords@.len()
            &&& forall|i: int|
                0 <= i < self.distances@.len() ==> self.distances@[i] == min_dist_bits(
                    self.ref_coords@[i],
                    self.other_coords@,
                    self.zyx_spacing,
                )
        }
        &&& forall|i: int| 0 <= i < self.distances@.len() ==> self.distances@[i] <= F32_INF
    }

    /// Volumetric boundary extraction of both volumes; the point and
    /// distance vectors stay empty until `execute` runs. The volumes must
    /// share one shape with dimensions at most 65536.
    pub fn new(ref_arr: &VoxelGrid, other_arr: &VoxelGrid, zyx_spacing: Spacing) -> (r:
        HausdorffMapDirected)
        requires
            ref_arr.wf(),
            other_arr.wf(),
            ref_arr.same_shape(*other_arr),
            ref_arr.dim_z <= 0x10000,
            ref_arr.dim_y <= 0x10000,
            ref_arr.dim_x <= 0x10000,
            zyx_spacing.wf(),
        ensures
            r.wf(),
            r.ref_arr.same_shape(*ref_arr),
            forall|z: int, y: int, x: int|
                ref_arr.in_bounds(z, y, x) ==> r.ref_arr.cell(z, y, x) == edge_cell(
                    *ref_arr,
                    z,
                    y,
                    x,
                    false,
                ),
            forall|z: int, y: int, x: int|
                other_arr.in_bounds(z, y, x) ==> r.other_arr.cell(z, y, x) == edge_cell(
                    *other_arr,
                    z,
                    y,
                    x,
                    false,
                ),
            ref_arr.data@ == other_arr.data@ ==> r.ref_arr.data@ == r.other_arr.data@,
            r.zyx_spacing == zyx_spacing,
            r.ref_coords@.len() == 0 && r.other_coords@.len() == 0 && r.distances@.len() == 0,
    {
        let ref_edge = generate_edge(ref_arr, false);
        let other_edge = generate_edge(other_arr, false);
        proof {
            if ref_arr.data@ == other_arr.data@ {
                assert forall|k: int| 0 <= k < ref_edge.data@.len() implies ref_edge.data@[k]
                    == other_edge.data@[k] by {
                    let zz = k / (ref_arr.dim_y * ref_arr.dim_x) as int;
                    let rem = k % (ref_arr.dim_y * ref_arr.dim_x) as int;
                    let yy = rem / ref_arr.dim_x as int;
                    let xx = rem % ref_arr.dim_x as int;
                    crate::grid::lemma_flat_of_coord(*ref_arr, k);
                    assert(ref_edge.cell(zz, yy, xx) == edge_cell(*ref_arr, zz, yy, xx, false));
                    assert(other_edge.cell(zz, yy, xx) == edge_cell(*other_arr, zz, yy, xx, false));
                    lemma_edge_cell_congruent(*ref_arr, *other_arr, zz, yy, xx, false);
                }
                assert(ref_edge.data@ =~= other_edge.data@);
            }
        }
        HausdorffMapDirected {
            ref_arr: ref_edge,
            other_arr: other_edge,
            zyx_spacing,
            ref_coords: Vec::new(),
            other_coords: Vec::new(),
            distances: Vec::new(),
        }
    }

    /// Collect both boundary point sets in raster order, then compute, for
    /// every reference point, the least distance to any other point by a
    /// full scan. Identical boundary volumes give an all-zero distance list.
    #[verifier::loop_isolation(false)]
    pub fn execute(&mut self)
        requires
            old(self).wf(),
        ensures
            final(self).computed(),
            final(self).ref_arr == old(self).ref_arr,
            final(self).other_arr == old(self).other_arr,
            final(self).zyx_spacing == old(self).zyx_spacing,
            old(self).ref_arr.data@ == old(self).other_arr.data@ ==> forall|i: int|
                0 <= i < final(self).distances@.len() ==> final(self).distances@[i] == F32_ZERO,
    {
        proof {
            lemma_point_seq_in_range(self.ref_arr, self.ref_arr.data.len() as int);
            lemma_point_seq_in_range(self.other_arr, self.other_arr.data.len() as int);
        }
        self.ref_coords = collect_coords(&self.ref_arr);
        self.other_coords = collect_coords(&self.other_arr);
        self.distances = Vec::new();
        proof {
            assert forall|k: int| 0 <= k < self.ref_coords@.len() implies coord_in_range(
                #[trigger] self.ref_coords@[k],
            ) by {
                assert(self.ref_coords@[k] == point_seq(
                    self.ref_arr,
                    self.ref_arr.data.len() as int,
                )[k]);
            }
            assert forall|k: int| 0 <= k < self.other_coords@.len() implies coord_in_range(
                #[trigger] self.other_coords@[k],
            ) by {
                assert(self.other_coords@[k] == point_seq(
                    self.other_arr,
                    self.other_arr.data.len() as int,
                )[k]);
            }
            if self.ref_arr.data@ == self.other_arr.data@ {
                lemma_point_seq_congruent(
                    self.ref_arr,
                    self.other_arr,
                    self.ref_arr.data.len() as int,
                );
            }
        }
        if self.other_coords.len() == 0 {
            return ;
        }
        let n_ref = self.ref_coords.len();
        let n_other = self.other_coords.len();
        let same: Ghost<bool> = Ghost(self.ref_coords@ == self.other_coords@);
        let mut i: usize = 0;
        while i < n_ref
            invariant
                i <= n_ref,
                n_ref == self.ref_coords@.len(),
                n_other == self.other_coords@.len(),
                n_other > 0,
                same@ == (self.ref_coords@ == self.other_coords@),
                self.distances@.len() == i,
                forall|k: int|
                    0 <= k < i ==> self.distances@[k] == min_dist_bits(
                        self.ref_coords@[k],
                        self.other_coords@,
                        self.zyx_spacing,
                    ),
                forall|k: int| 0 <= k < i ==> self.distances@[k] <= F32_INF,
                same@ ==> forall|k: int| 0 <= k < i ==> self.distances@[k] == F32_ZERO,
                self.ref_arr == old(self).ref_arr,
                self.other_arr == old(self).other_arr,
                self.zyx_spacing == old(self).zyx_spacing,
                self.ref_coords@ == point_seq(self.ref_arr, self.ref_arr.data.len() as int),
                self.other_coords@ == point_seq(self.other_arr, self.other_arr.data.len() as int),
                forall|k: int|
                    0 <= k < self.ref_coords@.len() ==> coord_in_range(
                        #[trigger] self.ref_coords@[k],
                    ),
                forall|k: int|
                    0 <= k < self.other_coords@.len() ==> coord_in_range(
                        #[trigger] self.other_coords@[k],
                    ),
            decreases n_ref - i,
        {
            let p = self.ref_coords[i];
            let mut m = pair_distance(&p, &self.other_coords[0], &self.zyx_spacing);
            proof {
                assert(self.other_coords@.take(1).len() == 1);
                assert(self.other_coords@.take(1)[0] == self.other_coords@[0]);
            }
            let mut j: usize = 1;
            while j < n_other
                invariant
                    1 <= j <= n_other,
                    m == min_dist_bits(
                        self.ref_coords@[i as int],
                        self.other_coords@.take(j as int),
                        self.zyx_spacing,
                    ),
                    m <= F32_INF,
                    (exists|k: int|
                        0 <= k < j && self.other_coords@[k] == self.ref_coords@[i as int]) ==> m
                        == F32_ZERO,
                decreases n_other - j,
            {
                let d = pair_distance(&p, &self.other_coords[j], &self.zyx_spacing);
                proof {
                    let pre = self.other_coords@.take(j as int);
                    let cur = self.other_coords@.take(j + 1);
                    assert(cur.drop_last() =~= pre);
                    assert(cur.last() == self.other_coords@[j as int]);
                    assert(cur.len() == j + 1 >= 2);
                }
                if d < m {
                    m = d;
                }
                j = j + 1;
            }
            proof {
                assert(self.other_coords@.take(n_other as int) =~= self.other_coords@);
                if same@ {
                    assert(self.other_coords@[i as int] == self.ref_coords@[i as int]);
                }
            }
            self.distances.push(m);
            i = i + 1;
        }
    }

    /// The directed Hausdorff distance: the largest entry of the distance
    /// list, as f32 bits; `None` exactly when the list is empty (one of the
    /// boundaries has no voxel), where a maximum does not exist.
    #[verifier::loop_isolation(false)]
    pub fn hd(&self) -> (r: Option<u32>)
        ensures
            r.is_none() <==> self.distances@.len() == 0,
            self.distances@.len() > 0 ==> r == Some(max_bits(self.distances@)),
            self.distances@.len() > 0 && (forall|i: int|
                0 <= i < self.distances@.len() ==> self.distances@[i] == F32_ZERO) ==> r == Some(
                F32_ZERO,
            ),
    {
        let n = self.distances.len();
        if n == 0 {
            return None;
        }
        proof {
            lemma_max_bits_bounds(self.distances@);
        }
        let mut m = self.distances[0];
        proof {
            assert(self.distances@.take(1).len() == 1);
            assert(self.distances@.take(1)[0] == self.distances@[0]);
        }
        let mut j: usize = 1;
        while j < n
            invariant
                1 <= j <= n,
                m == max_bits(self.distances@.take(j as int)),
            decreases n - j,
        {
            let d = self.distances[j];
            proof {
                let pre = self.distances@.take(j as int);
                let cur = self.distances@.take(j + 1);
                assert(cur.drop_last() =~= pre);
                assert(cur.last() == self.distances@[j as int]);
                assert(cur.len() == j + 1 >= 2);
            }
            if d > m {
                m = d;
            }
            j = j + 1;
        }
        proof {
            assert(self.distances@.take(n as int) =~= self.distances@);
        }
        Some(m)
    }
}

/// Whether a voxel is a boundary voxel depends only on the data and shape.
pub proof fn lemma_edge_cell_congruent(
    g1: VoxelGrid,
    g2: VoxelGrid,
    z: int,
    y: int,
    x: int,
    use_2d: bool,
)
    requires
        g1.data@ == g2.data@,
        g1.dim_z == g2.dim_z,
        g1.dim_y == g2.dim_y,
        g1.dim_x == g2.dim_x,
    ensures
        edge_cell(g1, z, y, x, use_2d) == edge_cell(g2, z, y, x, use_2d),
{
    lemma_counts_congruent(g1, g2);
}

proof fn lemma_counts_congruent(g1: VoxelGrid, g2: VoxelGrid)
    requires
        g1.data@ == g2.data@,
        g1.dim_z == g2.dim_z,
        g1.dim_y == g2.dim_y,
        g1.dim_x == g2.dim_x,
    ensures
        forall|z: int, y: int, xlo: int, xhi: int|
            #[trigger] crate::utils::row_count(g1, z, y, xlo, xhi) == crate::utils::row_count(
                g2,
                z,
                y,
                xlo,
                xhi,
            ),
        forall|z: int, ylo: int, yhi: int, xlo: int, xhi: int|
            #[trigger] crate::utils::plane_count(g1, z, ylo, yhi, xlo, xhi)
                == crate::utils::plane_count(g2, z, ylo, yhi, xlo, xhi),
        forall|zlo: int, zhi: int, ylo: int, yhi: int, xlo: int, xhi: int|
            #[trigger] crate::utils::box_count(g1, zlo, zhi, ylo, yhi, xlo, xhi)
                == crate::utils::box_count(g2, zlo, zhi, ylo, yhi, xlo, xhi),
{
    assert forall|z: int, y: int, xlo: int, xhi: int|
        #[trigger] crate::utils::row_count(g1, z, y, xlo, xhi) == crate::utils::row_count(
        g2,
        z,
        y,
        xlo,
        xhi,
    ) by {
        lemma_row_count_congruent(g1, g2, z, y, xlo, xhi);
    }
    assert forall|z: int, ylo: int, yhi: int, xlo: int, xhi: int|
        #[trigger] crate::utils::plane_count(g1, z, ylo, yhi, xlo, xhi)
            == crate::utils::plane_count(g2, z, ylo, yhi, xlo, xhi) by {
        lemma_plane_count_congruent(g1, g2, z, ylo, yhi, xlo, xhi);
    }
    assert forall|zlo: int, zhi: int, ylo: int, yhi: int, xlo: int, xhi: int|
        #[trigger] crate::utils::box_count(g1, zlo, zhi, ylo, yhi, xlo, xhi)
            == crate::utils::box_count(g2, zlo, zhi, ylo, yhi, xlo, xhi) by {
        lemma_box_count_congruent(g1, g2, zlo, zhi, ylo, yhi, xlo, xhi);
    }
}

proof fn lemma_row_count_congruent(g1: VoxelGrid, g2: VoxelGrid, z: int, y: int, xlo: int, xhi: int)
    requires
        g1.data@ == g2.data@,
        g1.dim_y == g2.dim_y,
        g1.dim_x == g2.dim_x,
    ensures
        crate::utils::row_count(g1, z, y, xlo, xhi) == crate::utils::row_count(g2, z, y, xlo, xhi),
    decreases xhi - xlo,
{
    if xhi > xlo {
        lemma_row_count_congruent(g1, g2, z, y, xlo, xhi - 1);
    }
}

proof fn lemma_plane_count_congruent(
    g1: VoxelGrid,
    g2: VoxelGrid,
    z: int,
    ylo: int,
    yhi: int,
    xlo: int,
    xhi: int,
)
    requires
        g1.data@ == g2.data@,
        g1.dim_y == g2.dim_y,
        g1.dim_x == g2.dim_x,
    ensures
        crate::utils::plane_count(g1, z, ylo, yhi, xlo, xhi) == crate::utils::plane_count(
            g2,
            z,
            ylo,
            yhi,
            xlo,
            xhi,
        ),
    decreases yhi - ylo,
{
    if yhi > ylo {
        lemma_plane_count_congruent(g1, g2, z, ylo, yhi - 1, xlo, xhi);
        lemma_row_count_congruent(g1, g2, z, yhi - 1, xlo, xhi);
    }
}

proof fn lemma_box_count_congruent(
    g1: VoxelGrid,
    g2: VoxelGrid,
    zlo: int,
    zhi: int,
    ylo: int,
    yhi: int,
    xlo: int,
    xhi: int,
)
    requires
        g1.data@ == g2.data@,
        g1.dim_y == g2.dim_y,
        g1.dim_x == g2.dim_x,
    ensures
        crate::utils::box_count(g1, zlo, zhi, ylo, yhi, xlo, xhi) == crate::utils::box_count(
            g2,
            zlo,
            zhi,
            ylo,
            yhi,
            xlo,
            xhi,
        ),
    decreases zhi - zlo,
{
    if zhi > zlo {
        lemma_box_count_congruent(g1, g2, zlo, zhi - 1, ylo, yhi, xlo, xhi);
        lemma_plane_count_congruent(g1, g2, zhi - 1, ylo, yhi, xlo, xhi);
    }
}

/// Left-to-right f32 sum of the entries, starting from +0.0.
pub open spec fn sum_bits_seq(s: Seq<u32>) -> u32
    decreases s.len(),
{
    if s.len() == 0 {
        F32_ZERO
    } else {
        add_bits(sum_bits_seq(s.drop_last()), s.last())
    }
}

/// Number of entries among the first `n` that are at most `tol` (both f32
/// bit patterns of non-negative non-NaN values, so the unsigned comparison
/// is the numeric one).
pub open spec fn count_within(s: Seq<u32>, tol: u32, n: int) -> nat
    decreases n,
{
    if n <= 0 {
        0
    } else {
        count_within(s, tol, n - 1) + (if s[n - 1] <= tol {
            1nat
        } else {
            0nat
        })
    }
}

pub proof fn lemma_count_within_bound(s: Seq<u32>, tol: u32, n: int)
    ensures
        count_within(s, tol, n) <= (if n <= 0 {
            0
        } else {
            n
        }),
    decreases n,
{
    if n > 0 {
        lemma_count_within_bound(s, tol, n - 1);
    }
}

/// Raising the tolerance never loses an entry: the within-tolerance count is
/// monotone in the tolerance.
pub proof fn lemma_count_within_monotone(s: Seq<u32>, t1: u32, t2: u32, n: int)
    requires
        t1 <= t2,
    ensures
        count_within(s, t1, n) <= count_within(s, t2, n),
    decreases n,
{
    if n > 0 {
        lemma_count_within_monotone(s, t1, t2, n - 1);
    }
}

/// The fraction count/len computed as the original does: both converted to
/// f64, divided, and the quotient narrowed to f32.
pub open spec fn ratio_bits(count: u64, len: u64) -> u32 {
    f64_to_f32_bits(div_f64_bits(u64_to_f64_bits(count), u64_to_f64_bits(len)))
}

/// The ordering of f32 bit patterns of non-negative non-NaN values.
pub open spec fn dist_leq() -> spec_fn(u32, u32) -> bool {
    |a: u32, b: u32| a <= b
}

/// The distance list sorted ascending.
pub open spec fn sorted_dists(s: Seq<u32>) -> Seq<u32> {
    s.sort_by(dist_leq())
}

pub proof fn lemma_dist_leq_total()
    ensures
        vstd::relations::total_ordering(dist_leq()),
{
}

/// Sorting keeps the length, and puts the smallest entry first and the
/// largest entry last.
pub proof fn lemma_sorted_extremes(s: Seq<u32>)
    requires
        s.len() > 0,
    ensures
        sorted_dists(s).len() == s.len(),
        sorted_dists(s)[0] == min_bits(s),
        sorted_dists(s)[s.len() - 1] == max_bits(s),
{
    broadcast use vstd::seq_lib::group_to_multiset_ensures;

    lemma_dist_leq_total();
    s.lemma_sort_by_ensures(dist_leq());
    let t = sorted_dists(s);
    assert(t.to_multiset() == s.to_multiset());
    assert(t.to_multiset().len() == t.len());
    assert(s.to_multiset().len() == s.len());
    lemma_min_bits_bounds(s);
    lemma_max_bits_bounds(s);
    let mn = min_bits(s);
    let mx = max_bits(s);
    assert(s.contains(mn));
    assert(s.to_multiset().count(mn) > 0);
    assert(t.contains(mn));
    let kn = choose|k: int| 0 <= k < t.len() && t[k] == mn;
    assert(t.contains(t[0]));
    assert(s.contains(t[0]));
    let k0 = choose|k: int| 0 <= k < s.len() && s[k] == t[0];
    assert(mn <= s[k0]);
    if 0 < kn {
        assert(vstd::relations::sorted_by(t, dist_leq()));
        assert((dist_leq())(t[0], t[kn]));
    }
    assert(t[0] == mn);
    assert(s.contains(mx));
    assert(s.to_multiset().count(mx) > 0);
    assert(t.contains(mx));
    let km = choose|k: int| 0 <= k < t.len() && t[k] == mx;
    assert(t.contains(t[t.len() - 1]));
    assert(s.contains(t[t.len() - 1]));
    let k1 = choose|k: int| 0 <= k < s.len() && s[k] == t[t.len() - 1];
    assert(s[k1] <= mx);
    if km < t.len() - 1 {
        assert((dist_leq())(t[km], t[t.len() - 1]));
    }
    assert(t[t.len() - 1] == mx);
}

/// Sort a distance list ascending by insertion into a fresh vector.
#[verifier::loop_isolation(false)]
fn sort_distances(v: &Vec<u32>) -> (r: Vec<u32>)
    ensures
        r@ == sorted_dists(v@),
{
    broadcast use vstd::seq_lib::to_multiset_insert;

    let mut out: Vec<u32> = Vec::new();
    let n = v.len();
    proof {
        assert(v@.take(0) =~= Seq::<u32>::empty());
        assert(Seq::<u32>::empty().to_multiset() =~= out@.to_multiset());
    }
    let mut i: usize = 0;
    while i < n
        invariant
            i <= n,
            vstd::relations::sorted_by(out@, dist_leq()),
            out@.to_multiset() == v@.take(i as int).to_multiset(),
            out@.len() == i,
        decreases n - i,
    {
        let x = v[i];
        let mut k: usize = 0;
        while k < out.len() && out[k] <= x
            invariant
                k <= out@.len(),
                forall|j: int| 0 <= j < k ==> out@[j] <= x,
            decreases out@.len() - k,
        {
            k = k + 1;
        }
        let ghost pre = out@;
        out.insert(k, x);
        proof {
            assert(out@ == pre.insert(k as int, x));
            assert forall|p: int, q: int| 0 <= p < q < out@.len() implies (dist_leq())(
                out@[p],
                out@[q],
            ) by {
                let ki = k as int;
                if p < ki {
                    assert(out@[p] == pre[p]);
                } else if p == ki {
                    assert(out@[p] == x);
                } else {
                    assert(out@[p] == pre[p - 1]);
                }
                if q < ki {
                    assert(out@[q] == pre[q]);
                } else if q == ki {
                    assert(out@[q] == x);
                } else {
                    assert(out@[q] == pre[q - 1]);
                }
                if q >= ki && ki < pre.len() {
                    assert(x < pre[ki]);
                    assert((dist_leq())(pre[ki], pre[q - 1]) || ki == q - 1 || q <= ki);
                }
            }
            assert(v@.take(i + 1).drop_last() =~= v@.take(i as int));
            assert(v@.take(i + 1) =~= v@.take(i as int).push(x));
            vstd::seq_lib::to_multiset_build(v@.take(i as int), x);
            assert(pre.insert(k as int, x).to_multiset() =~= pre.to_multiset().insert(x));
            assert(out@.to_multiset() == v@.take(i + 1).to_multiset());
        }
        i = i + 1;
    }
    proof {
        assert(v@.take(n as int) =~= v@);
        lemma_dist_leq_total();
        v@.lemma_sort_by_ensures(dist_leq());
        vstd::seq_lib::lemma_sorted_unique(out@, sorted_dists(v@), dist_leq());
        assert(out@ =~= sorted_dists(v@));
    }
    out
}

/// The index the percentile convention selects: the percentile times
/// (len - 1), both as f32, truncated toward zero, and clamped into the list.
pub open spec fn perc_index(p: u32, len: int) -> int {
    let t = trunc_bits(mul_bits(p, u64_to_f32_bits((len - 1) as u64))) as int;
    if t < len {
        t
    } else {
        len - 1
    }
}

impl HausdorffMapDirected {
    /// Directed average surface distance: the f32 sum of the distance list,
    /// taken left to right, divided by the list's length; `None` exactly when
    /// the list is empty (the quotient 0/0 is undefined).
    #[verifier::loop_isolation(false)]
    pub fn asd(&self) -> (r: Option<u32>)
        ensures
            r.is_none() <==> self.distances@.len() == 0,
            self.distances@.len() > 0 ==> r == Some(
                div_bits(
                    sum_bits_seq(self.distances@),
                    u64_to_f32_bits(self.distances@.len() as u64),
                ),
            ),
    {
        let n = self.distances.len();
        if n == 0 {
            return None;
        }
        let mut sum: u32 = F32_ZERO;
        proof {
            assert(self.distances@.take(0) =~= Seq::<u32>::empty());
            assert(sum_bits_seq(self.distances@.take(0)) == F32_ZERO);
        }
        let mut j: usize = 0;
        while j < n
            invariant
                j <= n,
                sum == sum_bits_seq(self.distances@.take(j as int)),
            decreases n - j,
        {
            proof {
                let pre = self.distances@.take(j as int);
                let cur = self.distances@.take(j + 1);
                assert(cur.drop_last() =~= pre);
                assert(cur.last() == self.distances@[j as int]);
            }
            sum = add_f32(sum, self.distances[j]);
            j = j + 1;
        }
        proof {
            assert(self.distances@.take(n as int) =~= self.distances@);
        }
        Some(div_f32(sum, u64_to_f32(n as u64)))
    }

    /// Percentile of the distance list under the original's convention: sort
    /// ascending, scale the percentile by (len - 1) in f32, truncate toward
    /// zero, index. `None` exactly when the list is empty. A percentile of
    /// 0.0 selects the smallest distance; 1.0 selects the largest (the
    /// directed Hausdorff distance) whenever the list has at most 2^24 + 1
    /// entries, so that the index arithmetic is exact.
    pub fn hd_percentile(&self, percentile: u32) -> (r: Option<u32>)
        requires
            percentile <= F32_ONE,
        ensures
            r.is_none() <==> self.distances@.len() == 0,
            self.distances@.len() > 0 ==> r == Some(
                sorted_dists(self.distances@)[perc_index(
                    percentile,
                    self.distances@.len() as int,
                )],
            ),
            self.distances@.len() > 0 && percentile == F32_ZERO ==> r == Some(
                min_bits(self.distances@),
            ),
            0 < self.distances@.len() <= 0x100_0001 && percentile == F32_ONE ==> r == Some(
                max_bits(self.distances@),
            ),
    {
        let n = self.distances.len();
        if n == 0 {
            return None;
        }
        let sorted = sort_distances(&self.distances);
        let m_f = u64_to_f32((n - 1) as u64);
        let prod = mul_f32(percentile, m_f);
        let t = trunc_f32_u64(prod);
        let idx = if t < n as u64 {
            t as usize
        } else {
            n - 1
        };
        proof {
            lemma_sorted_extremes(self.distances@);
            assert(idx == perc_index(percentile, self.distances@.len() as int));
        }
        Some(sorted[idx])
    }

    /// Surface Dice at a tolerance: the fraction of the distance list at
    /// most the tolerance (an f32 bit pattern of a non-negative non-NaN
    /// value), computed as count and length divided in f64 and narrowed to
    /// f32. `None` exactly when the list is empty (the quotient 0/0 is
    /// undefined). The fraction never exceeds 1.0, is exactly 1.0 when every
    /// entry is within the tolerance, and dominates the fraction of any
    /// smaller count.
    #[verifier::loop_isolation(false)]
    pub fn surface_dc(&self, tolerance: u32) -> (r: Option<u32>)
        requires
            tolerance <= F32_INF,
        ensures
            r.is_none() <==> self.distances@.len() == 0,
            self.distances@.len() > 0 ==> r == Some(
                ratio_bits(
                    count_within(
                        self.distances@,
                        tolerance,
                        self.distances@.len() as int,
                    ) as u64,
                    self.distances@.len() as u64,
                ),
            ),
            self.distances@.len() > 0 ==> r.unwrap() <= F32_ONE,
            self.distances@.len() > 0 && count_within(
                self.distances@,
                tolerance,
                self.distances@.len() as int,
            ) == self.distances@.len() ==> r == Some(F32_ONE),
            self.distances@.len() > 0 ==> forall|c: u64|
                c <= count_within(self.distances@, tolerance, self.distances@.len() as int)
                    ==> #[trigger] ratio_bits(c, self.distances@.len() as u64) <= r.unwrap(),
    {
        let n = self.distances.len();
        if n == 0 {
            return None;
        }
        let mut within: u64 = 0;
        let mut j: usize = 0;
        while j < n
            invariant
                j <= n,
                within == count_within(self.distances@, tolerance, j as int),
            decreases n - j,
        {
            proof {
                lemma_count_within_bound(self.distances@, tolerance, j as int);
            }
            if self.distances[j] <= tolerance {
                within = within + 1;
            }
            j = j + 1;
        }
        proof {
            lemma_count_within_bound(self.distances@, tolerance, n as int);
        }
        let num = u64_to_f64(within);
        let den = u64_to_f64(n as u64);
        let q = div_f64(num, den);
        Some(f64_to_f32(q))
    }
}

/// Symmetric distance map: a directed map from reference to other and one
/// from other to reference, over the same spacing.
pub struct HausdorffMapUndirected {
    pub ref_to_other_map: HausdorffMapDirected,
    pub other_to_ref_map: HausdorffMapDirected,
}

impl HausdorffMapUndirected {
    pub open spec fn wf(self) -> bool {
        self.ref_to_other_map.wf() && self.other_to_ref_map.wf()
    }

    pub open spec fn computed(self) -> bool {
        self.ref_to_other_map.computed() && self.other_to_ref_map.computed()
    }

    /// Both directed maps over the two volumes, one in each direction.
    pub fn new(ref_arr: &VoxelGrid, other_arr: &VoxelGrid, zyx_spacing: Spacing) -> (r:
        HausdorffMapUndirected)
        requires
            ref_arr.wf(),
            other_arr.wf(),
            ref_arr.same_shape(*other_arr),
            ref_arr.dim_z <= 0x10000,
            ref_arr.dim_y <= 0x10000,
            ref_arr.dim_x <= 0x10000,
            zyx_spacing.wf(),
        ensures
            r.wf(),
            forall|z: int, y: int, x: int|
                ref_arr.in_bounds(z, y, x) ==> r.ref_to_other_map.ref_arr.cell(z, y, x)
                    == edge_cell(*ref_arr, z, y, x, false),
            forall|z: int, y: int, x: int|
                other_arr.in_bounds(z, y, x) ==> r.ref_to_other_map.other_arr.cell(z, y, x)
                    == edge_cell(*other_arr, z, y, x, false),
            forall|z: int, y: int, x: int|
                other_arr.in_bounds(z, y, x) ==> r.other_to_ref_map.ref_arr.cell(z, y, x)
                    == edge_cell(*other_arr, z, y, x, false),
            forall|z: int, y: int, x: int|
                ref_arr.in_bounds(z, y, x) ==> r.other_to_ref_map.other_arr.cell(z, y, x)
                    == edge_cell(*ref_arr, z, y, x, false),
            r.ref_to_other_map.ref_arr.same_shape(*ref_arr),
            r.other_to_ref_map.ref_arr.same_shape(*ref_arr),
            r.ref_to_other_map.zyx_spacing == zyx_spacing,
            r.other_to_ref_map.zyx_spacing == zyx_spacing,
            ref_arr.data@ == other_arr.data@ ==> r.ref_to_other_map.ref_arr.data@
                == r.ref_to_other_map.other_arr.data@,
            ref_arr.data@ == other_arr.data@ ==> r.other_to_ref_map.ref_arr.data@
                == r.other_to_ref_map.other_arr.data@,
            r.ref_to_other_map.distances@.len() == 0,
            r.other_to_ref_map.distances@.len() == 0,
    {
        HausdorffMapUndirected {
            ref_to_other_map: HausdorffMapDirected::new(ref_arr, other_arr, zyx_spacing),
            other_to_ref_map: HausdorffMapDirected::new(other_arr, ref_arr, zyx_spacing),
        }
    }

    /// Run both directed maps.
    pub fn execute(&mut self)
        requires
            old(self).wf(),
        ensures
            final(self).computed(),
            old(self).ref_to_other_map.ref_arr.data@ == old(self).ref_to_other_map.other_arr.data@
                ==> forall|i: int|
                0 <= i < final(self).ref_to_other_map.distances@.len()
                    ==> final(self).ref_to_other_map.distances@[i] == F32_ZERO,
            old(self).other_to_ref_map.ref_arr.data@ == old(self).other_to_ref_map.other_arr.data@
                ==> forall|i: int|
                0 <= i < final(self).other_to_ref_map.distances@.len()
                    ==> final(self).other_to_ref_map.distances@[i] == F32_ZERO,
    {
        self.ref_to_other_map.execute();
        self.other_to_ref_map.execute();
    }

    /// Symmetric Hausdorff distance: the larger of the two directed
    /// Hausdorff distances. A direction with an empty distance list has no
    /// maximum and is passed over; `None` when both lists are empty.
    pub fn hd(&self) -> (r: Option<u32>)
        ensures
            r.is_none() <==> (self.ref_to_other_map.distances@.len() == 0
                && self.other_to_ref_map.distances@.len() == 0),
            self.ref_to_other_map.distances@.len() > 0 && self.other_to_ref_map.distances@.len()
                > 0 ==> {
                let a = max_bits(self.ref_to_other_map.distances@);
                let b = max_bits(self.other_to_ref_map.distances@);
                r == Some(
                    if a > b {
                        a
                    } else {
                        b
                    },
                ) && r.unwrap() >= a && r.unwrap() >= b
            },
            self.ref_to_other_map.distances@.len() > 0 && self.other_to_ref_map.distances@.len()
                == 0 ==> r == Some(max_bits(self.ref_to_other_map.distances@)),
            self.ref_to_other_map.distances@.len() == 0 && self.other_to_ref_map.distances@.len()
                > 0 ==> r == Some(max_bits(self.other_to_ref_map.distances@)),
            self.ref_to_other_map.distances@.len() > 0 && self.other_to_ref_map.distances@.len()
                > 0 && (forall|i: int|
                0 <= i < self.ref_to_other_map.distances@.len()
                    ==> self.ref_to_other_map.distances@[i] == F32_ZERO) && (forall|i: int|
                0 <= i < self.other_to_ref_map.distances@.len()
                    ==> self.other_to_ref_map.distances@[i] == F32_ZERO) ==> r == Some(F32_ZERO),
    {
        let a = self.ref_to_other_map.hd();
        let b = self.other_to_ref_map.hd();
        match (a, b) {
            (Some(x), Some(y)) => if x > y {
                Some(x)
            } else {
                Some(y)
            },
            (Some(x), None) => Some(x),
            (None, Some(y)) => Some(y),
            (None, None) => None,
        }
    }

    /// Mean of the two directed Hausdorff distances: their f32 sum divided
    /// by 2.0; `None` when either distance list is empty.
    pub fn avg_hd(&self) -> (r: Option<u32>)
        ensures
            r.is_none() <==> (self.ref_to_other_map.distances@.len() == 0
                || self.other_to_ref_map.distances@.len() == 0),
            self.ref_to_other_map.distances@.len() > 0 && self.other_to_ref_map.distances@.len()
                > 0 ==> r == Some(
                div_bits(
                    add_bits(
                        max_bits(self.ref_to_other_map.distances@),
                        max_bits(self.other_to_ref_map.distances@),
                    ),
                    F32_TWO,
                ),
            ),
    {
        let a = self.ref_to_other_map.hd();
        let b = self.other_to_ref_map.hd();
        match (a, b) {
            (Some(x), Some(y)) => Some(div_f32(add_f32(x, y), F32_TWO)),
            _ => None,
        }
    }

    /// Average symmetric surface distance: the f32 mean of the two directed
    /// average surface distances; `None` when either distance list is empty.
    pub fn assd(&self) -> (r: Option<u32>)
        ensures
            r.is_none() <==> (self.ref_to_other_map.distances@.len() == 0
                || self.other_to_ref_map.distances@.len() == 0),
            self.ref_to_other_map.distances@.len() > 0 && self.other_to_ref_map.distances@.len()
                > 0 ==> r == Some(
                div_bits(
                    add_bits(
                        div_bits(
                            sum_bits_seq(self.ref_to_other_map.distances@),
                            u64_to_f32_bits(self.ref_to_other_map.distances@.len() as u64),
                        ),
                        div_bits(
                            sum_bits_seq(self.other_to_ref_map.distances@),
                            u64_to_f32_bits(self.other_to_ref_map.distances@.len() as u64),
                        ),
                    ),
                    F32_TWO,
                ),
            ),
    {
        let a = self.ref_to_other_map.asd();
        let b = self.other_to_ref_map.asd();
        match (a, b) {
            (Some(x), Some(y)) => Some(div_f32(add_f32(x, y), F32_TWO)),
            _ => None,
        }
    }

    /// Symmetric percentile: the larger of the two directed percentiles;
    /// `None` when either distance list is empty. At a percentile of 1.0 it
    /// is the symmetric Hausdorff distance (for lists of at most 2^24 + 1
    /// entries).
    pub fn hd_percentile(&self, percentile: u32) -> (r: Option<u32>)
        requires
            percentile <= F32_ONE,
        ensures
            r.is_none() <==> (self.ref_to_other_map.distances@.len() == 0
                || self.other_to_ref_map.distances@.len() == 0),
            self.ref_to_other_map.distances@.len() > 0 && self.other_to_ref_map.distances@.len()
                > 0 ==> {
                let a = sorted_dists(self.ref_to_other_map.distances@)[perc_index(
                    percentile,
                    self.ref_to_other_map.distances@.len() as int,
                )];
                let b = sorted_dists(self.other_to_ref_map.distances@)[perc_index(
                    percentile,
                    self.other_to_ref_map.distances@.len() as int,
                )];
                r == Some(
                    if a > b {
                        a
                    } else {
                        b
                    },
                )
            },
            0 < self.ref_to_other_map.distances@.len() <= 0x100_0001 && 0
                < self.other_to_ref_map.distances@.len() <= 0x100_0001 && percentile == F32_ONE
                ==> {
                let a = max_bits(self.ref_to_other_map.distances@);
                let b = max_bits(self.other_to_ref_map.distances@);
                r == Some(
                    if a > b {
                        a
                    } else {
                        b
                    },
                )
            },
    {
        let a = self.ref_to_other_map.hd_percentile(percentile);
        let b = self.other_to_ref_map.hd_percentile(percentile);
        match (a, b) {
            (Some(x), Some(y)) => if x > y {
                Some(x)
            } else {
                Some(y)
            },
            _ => None,
        }
    }

    /// Mean of the two directed percentiles: their f32 sum divided by 2.0;
    /// `None` when either distance list is empty.
    pub fn avg_hd_percentile(&self, percentile: u32) -> (r: Option<u32>)
        requires
            percentile <= F32_ONE,
        ensures
            r.is_none() <==> (self.ref_to_other_map.distances@.len() == 0
                || self.other_to_ref_map.distances@.len() == 0),
            self.ref_to_other_map.distances@.len() > 0 && self.other_to_ref_map.distances@.len()
                > 0 ==> r == Some(
                div_bits(
                    add_bits(
                        sorted_dists(self.ref_to_other_map.distances@)[perc_index(
                            percentile,
                            self.ref_to_other_map.distances@.len() as int,
                        )],
                        sorted_dists(self.other_to_ref_map.distances@)[perc_index(
                            percentile,
                            self.other_to_ref_map.distances@.len() as int,
                        )],
                    ),
                    F32_TWO,
                ),
            ),
    {
        let a = self.ref_to_other_map.hd_percentile(percentile);
        let b = self.other_to_ref_map.hd_percentile(percentile);
        match (a, b) {
            (Some(x), Some(y)) => Some(div_f32(add_f32(x, y), F32_TWO)),
            _ => None,
        }
    }
}

} // verus!
