use vstd::prelude::*;

use crate::grid::VoxelGrid;

verus! {

/// Clamp `val` into the inclusive range `[min, max]`.
pub fn clip_value(val: &usize, min: &usize, max: &usize) -> (r: usize)
    ensures
        r == if *val < *min {
            *min
        } else if *val > *max {
            *max
        } else {
            *val
        },
{
    if val.lt(min) {
        *min
    } else if val.gt(max) {
        *max
    } else {
        *val
    }
}

/// Lower edge of the neighborhood window around coordinate `c`: one voxel
/// before `c`, clamped at the volume's lower face.
pub open spec fn win_lo(c: int) -> int {
    if c >= 1 {
        c - 1
    } else {
        0
    }
}

/// Upper edge (exclusive) of the neighborhood window around coordinate `c`,
/// clamped at the volume's upper face `dim`.
pub open spec fn win_hi(c: int, dim: int) -> int {
    if c + 2 <= dim {
        c + 2
    } else {
        dim
    }
}

/// Number of set voxels in the row (z, y, xlo..xhi).
pub open spec fn row_count(g: VoxelGrid, z: int, y: int, xlo: int, xhi: int) -> nat
    decreases xhi - xlo,
{
    if xhi <= xlo {
        0
    } else {
        row_count(g, z, y, xlo, xhi - 1) + (if g.cell(z, y, xhi - 1) {
            1nat
        } else {
            0nat
        })
    }
}

/// Number of set voxels in the plane rectangle (z, ylo..yhi, xlo..xhi).
pub open spec fn plane_count(g: VoxelGrid, z: int, ylo: int, yhi: int, xlo: int, xhi: int) -> nat
    decreases yhi - ylo,
{
    if yhi <= ylo {
        0
    } else {
        plane_count(g, z, ylo, yhi - 1, xlo, xhi) + row_count(g, z, yhi - 1, xlo, xhi)
    }
}

/// Number of set voxels in the box (zlo..zhi, ylo..yhi, xlo..xhi).
pub open spec fn box_count(
    g: VoxelGrid,
    zlo: int,
    zhi: int,
    ylo: int,
    yhi: int,
    xlo: int,
    xhi: int,
) -> nat
    decreases zhi - zlo,
{
    if zhi <= zlo {
        0
    } else {
        box_count(g, zlo, zhi - 1, ylo, yhi, xlo, xhi) + plane_count(g, zhi - 1, ylo, yhi, xlo, xhi)
    }
}

pub proof fn lemma_row_count_bound(g: VoxelGrid, z: int, y: int, xlo: int, xhi: int)
    ensures
        row_count(g, z, y, xlo, xhi) <= (if xhi <= xlo {
            0
        } else {
            xhi - xlo
        }),
    decreases xhi - xlo,
{
    if xhi > xlo {
        lemma_row_count_bound(g, z, y, xlo, xhi - 1);
    }
}

pub proof fn lemma_plane_count_bound(g: VoxelGrid, z: int, ylo: int, yhi: int, xlo: int, xhi: int)
    requires
        xhi - xlo <= 3,
    ensures
        plane_count(g, z, ylo, yhi, xlo, xhi) <= 3 * (if yhi <= ylo {
            0
        } else {
            yhi - ylo
        }),
    decreases yhi - ylo,
{
    if yhi > ylo {
        lemma_plane_count_bound(g, z, ylo, yhi - 1, xlo, xhi);
        lemma_row_count_bound(g, z, yhi - 1, xlo, xhi);
    }
}

pub proof fn lemma_box_count_bound(
    g: VoxelGrid,
    zlo: int,
    zhi: int,
    ylo: int,
    yhi: int,
    xlo: int,
    xhi: int,
)
    requires
        xhi - xlo <= 3,
        yhi - ylo <= 3,
    ensures
        box_count(g, zlo, zhi, ylo, yhi, xlo, xhi) <= 9 * (if zhi <= zlo {
            0
        } else {
            zhi - zlo
        }),
    decreases zhi - zlo,
{
    if zhi > zlo {
        lemma_box_count_bound(g, zlo, zhi - 1, ylo, yhi, xlo, xhi);
        lemma_plane_count_bound(g, zhi - 1, ylo, yhi, xlo, xhi);
    }
}

/// Number of set voxels inside the neighborhood window of (z, y, x), clamped
/// to the volume: a 3x3 square in the same slice in planar mode, a 3x3x3 cube
/// in volumetric mode. The voxel itself is part of its window.
pub open spec fn window_count(g: VoxelGrid, z: int, y: int, x: int, use_2d: bool) -> nat {
    if use_2d {
        plane_count(g, z, win_lo(y), win_hi(y, g.dim_y as int), win_lo(x), win_hi(x, g.dim_x as int))
    } else {
        box_count(
            g,
            win_lo(z),
            win_hi(z, g.dim_z as int),
            win_lo(y),
            win_hi(y, g.dim_y as int),
            win_lo(x),
            win_hi(x, g.dim_x as int),
        )
    }
}

/// Full size of the unclamped window: 9 cells in planar mode, 27 in
/// volumetric mode. A set voxel is a boundary voxel exactly when its clamped
/// window holds strictly fewer set voxels than this.
pub open spec fn window_threshold(use_2d: bool) -> nat {
    if use_2d {
        9
    } else {
        27
    }
}

/// Whether the voxel (z, y, x) is a boundary (surface) voxel of `g`: it is
/// set and its clamped neighborhood window is not completely filled.
pub open spec fn edge_cell(g: VoxelGrid, z: int, y: int, x: int, use_2d: bool) -> bool {
    g.cell(z, y, x) && window_count(g, z, y, x, use_2d) < window_threshold(use_2d)
}

/// Count the set voxels of `g` in the box (zlo..zhi, ylo..yhi, xlo..xhi),
/// a neighborhood window at most 3 voxels wide along each axis.
#[verifier::loop_isolation(false)]
fn count_window(g: &VoxelGrid, zlo: usize, zhi: usize, ylo: usize, yhi: usize, xlo: usize,
    xhi: usize) -> (r: u32)
    requires
        g.wf(),
        zlo <= zhi <= g.dim_z,
        ylo <= yhi <= g.dim_y,
        xlo <= xhi <= g.dim_x,
        zhi - zlo <= 3,
        yhi - ylo <= 3,
        xhi - xlo <= 3,
    ensures
        r == box_count(*g, zlo as int, zhi as int, ylo as int, yhi as int, xlo as int, xhi as int),
{
    let mut count: u32 = 0;
    let mut z = zlo;
    while z < zhi
        invariant
            zlo <= z <= zhi,
            count == box_count(
                *g,
                zlo as int,
                z as int,
                ylo as int,
                yhi as int,
                xlo as int,
                xhi as int,
            ),
        decreases zhi - z,
    {
        let mut y = ylo;
        while y < yhi
            invariant
                zlo <= z < zhi,
                ylo <= y <= yhi,
                count == box_count(
                    *g,
                    zlo as int,
                    z as int,
                    ylo as int,
                    yhi as int,
                    xlo as int,
                    xhi as int,
                ) + plane_count(*g, z as int, ylo as int, y as int, xlo as int, xhi as int),
            decreases yhi - y,
        {
            let mut x = xlo;
            while x < xhi
                invariant
                    zlo <= z < zhi,
                    ylo <= y < yhi,
                    xlo <= x <= xhi,
                    count == box_count(
                        *g,
                        zlo as int,
                        z as int,
                        ylo as int,
                        yhi as int,
                        xlo as int,
                        xhi as int,
                    ) + plane_count(*g, z as int, ylo as int, y as int, xlo as int, xhi as int)
                        + row_count(*g, z as int, y as int, xlo as int, x as int),
                decreases xhi - x,
            {
                proof {
                    lemma_box_count_bound(
                        *g,
                        zlo as int,
                        z as int,
                        ylo as int,
                        yhi as int,
                        xlo as int,
                        xhi as int,
                    );
                    lemma_plane_count_bound(
                        *g,
                        z as int,
                        ylo as int,
                        y as int,
                        xlo as int,
                        xhi as int,
                    );
                    lemma_row_count_bound(*g, z as int, y as int, xlo as int, x as int);
                }
                if g.get(z, y, x) {
                    count = count + 1;
                }
                x = x + 1;
            }
            y = y + 1;
        }
        z = z + 1;
    }
    count
}

/// Boundary extraction: keep exactly the set voxels whose clamped
/// neighborhood window (3x3 in-slice when `use_2d`, 3x3x3 otherwise) is not
/// completely filled. Every kept voxel is set in the input, and the output
/// has the input's shape.
#[verifier::loop_isolation(false)]
#[verifier::rlimit(60)]
pub fn generate_edge(arr: &VoxelGrid, use_2d: bool) -> (out: VoxelGrid)
    requires
        arr.wf(),
    ensures
        out.wf(),
        out.same_shape(*arr),
        forall|z: int, y: int, x: int|
            arr.in_bounds(z, y, x) ==> out.cell(z, y, x) == edge_cell(*arr, z, y, x, use_2d),
{
    let mut data: Vec<bool> = Vec::new();
    let mut z: usize = 0;
    proof {
        assert(0 * arr.dim_y * arr.dim_x == 0) by (nonlinear_arith);
    }
    while z < arr.dim_z
        invariant
            z <= arr.dim_z,
            data@.len() == z * arr.dim_y * arr.dim_x,
            forall|z2: int, y2: int, x2: int|
                arr.in_bounds(z2, y2, x2) && arr.flat(z2, y2, x2) < data@.len() ==> data@[arr.flat(
                    z2,
                    y2,
                    x2,
                )] == edge_cell(*arr, z2, y2, x2, use_2d),
        decreases arr.dim_z - z,
    {
        let mut y: usize = 0;
        while y < arr.dim_y
            invariant
                z < arr.dim_z,
                y <= arr.dim_y,
                data@.len() == (z * arr.dim_y + y) * arr.dim_x,
                forall|z2: int, y2: int, x2: int|
                    arr.in_bounds(z2, y2, x2) && arr.flat(z2, y2, x2) < data@.len() ==> data@[
                    arr.flat(z2, y2, x2)] == edge_cell(*arr, z2, y2, x2, use_2d),
            decreases arr.dim_y - y,
        {
            let mut x: usize = 0;
            while x < arr.dim_x
                invariant
                    z < arr.dim_z,
                    y < arr.dim_y,
                    x <= arr.dim_x,
                    data@.len() == (z * arr.dim_y + y) * arr.dim_x + x,
                    forall|z2: int, y2: int, x2: int|
                        arr.in_bounds(z2, y2, x2) && arr.flat(z2, y2, x2) < data@.len() ==> data@[
                        arr.flat(z2, y2, x2)] == edge_cell(*arr, z2, y2, x2, use_2d),
                decreases arr.dim_x - x,
            {
                proof {
                    arr.lemma_flat_in_range(z as int, y as int, x as int);
                }
                let v: bool;
                if arr.get(z, y, x) {
                    let zlo = if use_2d {
                        z
                    } else if z >= 1 {
                        z - 1
                    } else {
                        0
                    };
                    let zhi = if use_2d {
                        z + 1
                    } else if arr.dim_z - z >= 2 {
                        z + 2
                    } else {
                        arr.dim_z
                    };
                    let ylo = if y >= 1 {
                        y - 1
                    } else {
                        0
                    };
                    let yhi = if arr.dim_y - y >= 2 {
                        y + 2
                    } else {
                        arr.dim_y
                    };
                    let xlo = if x >= 1 {
                        x - 1
                    } else {
                        0
                    };
                    let xhi = if arr.dim_x - x >= 2 {
                        x + 2
                    } else {
                        arr.dim_x
                    };
                    let threshold: u32 = if use_2d {
                        9
                    } else {
                        27
                    };
                    let sum = count_window(arr, zlo, zhi, ylo, yhi, xlo, xhi);
                    proof {
                        if use_2d {
                            // A one-slice box is exactly one plane.
                            assert(box_count(
                                *arr,
                                z as int,
                                z as int,
                                ylo as int,
                                yhi as int,
                                xlo as int,
                                xhi as int,
                            ) == 0);
                            assert(box_count(
                                *arr,
                                z as int,
                                z + 1,
                                ylo as int,
                                yhi as int,
                                xlo as int,
                                xhi as int,
                            ) == plane_count(
                                *arr,
                                z as int,
                                ylo as int,
                                yhi as int,
                                xlo as int,
                                xhi as int,
                            ));
                        }
                    }
                    v = sum < threshold;
                } else {
                    v = false;
                }
                data.push(v);
                proof {
                    assert forall|z2: int, y2: int, x2: int|
                        arr.in_bounds(z2, y2, x2) && arr.flat(z2, y2, x2) < data@.len() implies
                        data@[arr.flat(z2, y2, x2)] == edge_cell(*arr, z2, y2, x2, use_2d) by {
                        arr.lemma_flat_in_range(z2, y2, x2);
                        if arr.flat(z2, y2, x2) == arr.flat(z as int, y as int, x as int) {
                            arr.lemma_flat_injective(z2, y2, x2, z as int, y as int, x as int);
                        }
                    }
                }
                x = x + 1;
            }
            proof {
                assert((z * arr.dim_y + y + 1) * arr.dim_x == (z * arr.dim_y + y) * arr.dim_x
                    + arr.dim_x) by (nonlinear_arith);
            }
            y = y + 1;
        }
        proof {
            assert((z * arr.dim_y + arr.dim_y) * arr.dim_x == (z + 1) * arr.dim_y * arr.dim_x)
                by (nonlinear_arith)
            ;
        }
        z = z + 1;
    }
    let out = VoxelGrid { dim_z: arr.dim_z, dim_y: arr.dim_y, dim_x: arr.dim_x, data };
    proof {
        assert forall|z2: int, y2: int, x2: int| arr.in_bounds(z2, y2, x2) implies out.cell(
            z2,
            y2,
            x2,
        ) == edge_cell(*arr, z2, y2, x2, use_2d) by {
            arr.lemma_flat_in_range(z2, y2, x2);
        }
    }
    out
}

/// Every boundary voxel is a set voxel of the input volume: the extracted
/// boundary is a subset of the mask it came from.
pub proof fn lemma_boundary_subset(g: VoxelGrid, z: int, y: int, x: int, use_2d: bool)
    ensures
        edge_cell(g, z, y, x, use_2d) ==> g.cell(z, y, x),
{
}

/// A rectangle holds at most one set voxel per cell.
pub proof fn lemma_plane_count_le_area(g: VoxelGrid, z: int, ylo: int, yhi: int, xlo: int, xhi: int)
    requires
        xlo <= xhi,
    ensures
        plane_count(g, z, ylo, yhi, xlo, xhi) <= (if yhi <= ylo {
            0
        } else {
            (yhi - ylo) * (xhi - xlo)
        }),
    decreases yhi - ylo,
{
    if yhi > ylo {
        lemma_plane_count_le_area(g, z, ylo, yhi - 1, xlo, xhi);
        lemma_row_count_bound(g, z, yhi - 1, xlo, xhi);
        assert((yhi - ylo) * (xhi - xlo) == (yhi - 1 - ylo) * (xhi - xlo) + (xhi - xlo))
            by (nonlinear_arith);
    }
}

/// A box holds at most one set voxel per cell.
pub proof fn lemma_box_count_le_volume(
    g: VoxelGrid,
    zlo: int,
    zhi: int,
    ylo: int,
    yhi: int,
    xlo: int,
    xhi: int,
)
    requires
        xlo <= xhi,
        ylo <= yhi,
    ensures
        box_count(g, zlo, zhi, ylo, yhi, xlo, xhi) <= (if zhi <= zlo {
            0
        } else {
            (zhi - zlo) * ((yhi - ylo) * (xhi - xlo))
        }),
    decreases zhi - zlo,
{
    if zhi > zlo {
        lemma_box_count_le_volume(g, zlo, zhi - 1, ylo, yhi, xlo, xhi);
        lemma_plane_count_le_area(g, zhi - 1, ylo, yhi, xlo, xhi);
        assert((zhi - zlo) * ((yhi - ylo) * (xhi - xlo)) == (zhi - 1 - zlo) * ((yhi - ylo) * (xhi
            - xlo)) + (yhi - ylo) * (xhi - xlo)) by (nonlinear_arith);
    }
}

/// A row with a clear voxel holds strictly fewer set voxels than cells.
pub proof fn lemma_row_count_strict(g: VoxelGrid, z: int, y: int, xlo: int, xhi: int, xb: int)
    requires
        xlo <= xb < xhi,
        !g.cell(z, y, xb),
    ensures
        row_count(g, z, y, xlo, xhi) < xhi - xlo,
    decreases xhi - xlo,
{
    if xb == xhi - 1 {
        lemma_row_count_bound(g, z, y, xlo, xhi - 1);
    } else {
        lemma_row_count_strict(g, z, y, xlo, xhi - 1, xb);
    }
}

/// A rectangle with a clear voxel holds strictly fewer set voxels than cells.
pub proof fn lemma_plane_count_strict(
    g: VoxelGrid,
    z: int,
    ylo: int,
    yhi: int,
    xlo: int,
    xhi: int,
    yb: int,
    xb: int,
)
    requires
        ylo <= yb < yhi,
        xlo <= xb < xhi,
        !g.cell(z, yb, xb),
    ensures
        plane_count(g, z, ylo, yhi, xlo, xhi) < (yhi - ylo) * (xhi - xlo),
    decreases yhi - ylo,
{
    assert((yhi - ylo) * (xhi - xlo) == (yhi - 1 - ylo) * (xhi - xlo) + (xhi - xlo))
        by (nonlinear_arith);
    if yb == yhi - 1 {
        lemma_plane_count_le_area(g, z, ylo, yhi - 1, xlo, xhi);
        lemma_row_count_strict(g, z, yhi - 1, xlo, xhi, xb);
    } else {
        lemma_plane_count_strict(g, z, ylo, yhi - 1, xlo, xhi, yb, xb);
        lemma_row_count_bound(g, z, yhi - 1, xlo, xhi);
    }
}

/// A box with a clear voxel holds strictly fewer set voxels than cells.
pub proof fn lemma_box_count_strict(
    g: VoxelGrid,
    zlo: int,
    zhi: int,
    ylo: int,
    yhi: int,
    xlo: int,
    xhi: int,
    zb: int,
    yb: int,
    xb: int,
)
    requires
        zlo <= zb < zhi,
        ylo <= yb < yhi,
        xlo <= xb < xhi,
        !g.cell(zb, yb, xb),
    ensures
        box_count(g, zlo, zhi, ylo, yhi, xlo, xhi) < (zhi - zlo) * ((yhi - ylo) * (xhi - xlo)),
    decreases zhi - zlo,
{
    assert((zhi - zlo) * ((yhi - ylo) * (xhi - xlo)) == (zhi - 1 - zlo) * ((yhi - ylo) * (xhi
        - xlo)) + (yhi - ylo) * (xhi - xlo)) by (nonlinear_arith);
    if zb == zhi - 1 {
        lemma_box_count_le_volume(g, zlo, zhi - 1, ylo, yhi, xlo, xhi);
        lemma_plane_count_strict(g, zhi - 1, ylo, yhi, xlo, xhi, yb, xb);
    } else {
        lemma_box_count_strict(g, zlo, zhi - 1, ylo, yhi, xlo, xhi, zb, yb, xb);
        lemma_plane_count_le_area(g, zhi - 1, ylo, yhi, xlo, xhi);
    }
}

/// Some set entry has a first position: before it everything is clear.
proof fn lemma_least_set_index(s: Seq<bool>, i: int)
    requires
        0 <= i < s.len(),
        s[i],
    ensures
        exists|j: int|
            0 <= j <= i && #[trigger] s[j] && forall|k: int| 0 <= k < j ==> !s[k],
    decreases i,
{
    if exists|k: int| 0 <= k < i && s[k] {
        let k0 = choose|k: int| 0 <= k < i && s[k];
        lemma_least_set_index(s, k0);
    } else {
        assert(s[i] && forall|k: int| 0 <= k < i ==> !s[k]);
    }
}

/// A mask with at least one set voxel has at least one boundary voxel, in
/// either mode: the set voxel at the smallest raster position either has a
/// clear predecessor inside its window or sits on the volume's first face,
/// where the clamped window cannot be completely filled.
pub proof fn lemma_nonempty_mask_has_boundary(g: VoxelGrid, use_2d: bool)
    requires
        g.wf(),
        exists|z: int, y: int, x: int| g.in_bounds(z, y, x) && #[trigger] g.cell(z, y, x),
    ensures
        exists|z: int, y: int, x: int|
            g.in_bounds(z, y, x) && #[trigger] edge_cell(g, z, y, x, use_2d),
{
    let (z0, y0, x0): (int, int, int) = choose|z: int, y: int, x: int|
        g.in_bounds(z, y, x) && #[trigger] g.cell(z, y, x);
    g.lemma_flat_in_range(z0, y0, x0);
    let s = g.data@;
    lemma_least_set_index(s, g.flat(z0, y0, x0));
    let j = choose|j: int|
        0 <= j <= g.flat(z0, y0, x0) && #[trigger] s[j] && forall|k: int| 0 <= k < j ==> !s[k];
    crate::grid::lemma_flat_of_coord(g, j);
    let plane = (g.dim_y * g.dim_x) as int;
    let z = j / plane;
    let rem = j % plane;
    let y = rem / g.dim_x as int;
    let x = rem % g.dim_x as int;
    assert(g.in_bounds(z, y, x) && g.flat(z, y, x) == j);
    assert(g.cell(z, y, x));
    let zlo = if use_2d {
        z
    } else {
        win_lo(z)
    };
    let zhi = if use_2d {
        z + 1
    } else {
        win_hi(z, g.dim_z as int)
    };
    let ylo = win_lo(y);
    let yhi = win_hi(y, g.dim_y as int);
    let xlo = win_lo(x);
    let xhi = win_hi(x, g.dim_x as int);
    assert(zlo <= z < zhi && ylo <= y < yhi && xlo <= x < xhi);
    if x >= 1 {
        // The raster predecessor sits in the window and is clear.
        assert(g.flat(z, y, x - 1) == j - 1);
        g.lemma_flat_in_range(z, y, x - 1);
        assert(!g.cell(z, y, x - 1));
        if use_2d {
            lemma_plane_count_strict(g, z, ylo, yhi, xlo, xhi, y, x - 1);
            assert((yhi - ylo) * (xhi - xlo) <= 9) by (nonlinear_arith)
                requires
                    0 <= yhi - ylo <= 3,
                    0 <= xhi - xlo <= 3,
            ;
            assert(box_count(g, z, z, ylo, yhi, xlo, xhi) == 0);
            assert(window_count(g, z, y, x, use_2d) < 9);
        } else {
            lemma_box_count_strict(g, zlo, zhi, ylo, yhi, xlo, xhi, z, y, x - 1);
            assert((zhi - zlo) * ((yhi - ylo) * (xhi - xlo)) <= 27) by (nonlinear_arith)
                requires
                    0 <= zhi - zlo <= 3,
                    0 <= yhi - ylo <= 3,
                    0 <= xhi - xlo <= 3,
            ;
            assert(window_count(g, z, y, x, use_2d) < 27);
        }
    } else {
        // On the first face along x the clamped window has at most two
        // columns, so it can never reach the full window size.
        assert(xhi - xlo <= 2);
        if use_2d {
            lemma_plane_count_le_area(g, z, ylo, yhi, xlo, xhi);
            assert((yhi - ylo) * (xhi - xlo) <= 6) by (nonlinear_arith)
                requires
                    0 <= yhi - ylo <= 3,
                    0 <= xhi - xlo <= 2,
            ;
            assert(window_count(g, z, y, x, use_2d) < 9);
        } else {
            lemma_box_count_le_volume(g, zlo, zhi, ylo, yhi, xlo, xhi);
            assert((zhi - zlo) * ((yhi - ylo) * (xhi - xlo)) <= 18) by (nonlinear_arith)
                requires
                    0 <= zhi - zlo <= 3,
                    0 <= yhi - ylo <= 3,
                    0 <= xhi - xlo <= 2,
            ;
            assert(window_count(g, z, y, x, use_2d) < 27);
        }
    }
    assert(edge_cell(g, z, y, x, use_2d));
}

} // verus!
