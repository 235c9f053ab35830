use volumetrics::distance::HausdorffMapDirected;
use volumetrics::distance::HausdorffMapUndirected;
use volumetrics::distance::Spacing;
use volumetrics::grid::VoxelGrid;

fn grid_from(dim_z: usize, dim_y: usize, dim_x: usize, vals: &[u8]) -> VoxelGrid {
    assert_eq!(vals.len(), dim_z * dim_y * dim_x);
    let mut g = VoxelGrid::new_filled(dim_z, dim_y, dim_x, false).unwrap();
    let mut i = 0;
    for z in 0..dim_z {
        for y in 0..dim_y {
            for x in 0..dim_x {
                g.set(z, y, x, vals[i] != 0);
                i += 1;
            }
        }
    }
    g
}

fn sp(z: f32, y: f32, x: f32) -> Spacing {
    Spacing::new(z.to_bits(), y.to_bits(), x.to_bits()).unwrap()
}

fn generate_src_dst_arrays() -> (VoxelGrid, VoxelGrid) {
    let src = grid_from(
        2,
        4,
        5,
        &[
            1, 1, 1, 1, 0, //
            1, 1, 1, 0, 0, //
            1, 1, 0, 0, 0, //
            0, 0, 0, 0, 0, //
            1, 1, 1, 0, 0, //
            1, 1, 1, 1, 0, //
            1, 1, 1, 0, 0, //
            0, 0, 0, 0, 0,
        ],
    );
    let dst = grid_from(
        2,
        4,
        5,
        &[
            1, 1, 1, 0, 0, //
            1, 1, 1, 0, 0, //
            1, 1, 1, 0, 0, //
            0, 0, 0, 0, 0, //
            0, 1, 1, 1, 0, //
            0, 1, 1, 1, 0, //
            0, 1, 1, 1, 0, //
            0, 1, 1, 1, 1,
        ],
    );
    (src, dst)
}

#[test]
fn test_directed_hd() {
    let (src, dst) = generate_src_dst_arrays();
    let mut hd_map = HausdorffMapDirected::new(&src, &dst, sp(1.0, 2.0, 3.0));
    hd_map.execute();

    assert!(hd_map.distances.len().eq(&hd_map.ref_coords.len()));

    assert!(f32::from_bits(hd_map.hd().unwrap()).eq(&1.0));
}

#[test]
fn test_directed_hd_percentile() {
    let (src, dst) = generate_src_dst_arrays();

    let mut hd_map = HausdorffMapDirected::new(&src, &dst, sp(1.0, 2.0, 3.0));
    hd_map.execute();
    assert!(hd_map.distances.len().eq(&hd_map.ref_coords.len()));

    let one = 1.0f32.to_bits();
    assert!(hd_map.hd_percentile(one).eq(&hd_map.hd()));
    assert!(f32::from_bits(hd_map.hd_percentile(0.95f32.to_bits()).unwrap()).eq(&1.0));
    assert!(f32::from_bits(hd_map.hd_percentile(0.0f32.to_bits()).unwrap()).eq(&0.0));
}

#[test]
fn test_surface_dc() {
    let (src, dst) = generate_src_dst_arrays();
    let mut hd_map = HausdorffMapDirected::new(&src, &dst, sp(3.09, 4.1231, 2.343));
    hd_map.execute();

    assert!(hd_map.distances.len().eq(&hd_map.ref_coords.len()));
    assert!(f32::from_bits(hd_map.surface_dc(1.0f32.to_bits()).unwrap()).eq(&0.7894737));
    assert!(f32::from_bits(hd_map.surface_dc(2.0f32.to_bits()).unwrap()).eq(&0.7894737));
    assert!(f32::from_bits(hd_map.surface_dc(3.0f32.to_bits()).unwrap()).eq(&1.0));
}

#[test]
fn test_undirected_hd_percentile() {
    let (src, dst) = generate_src_dst_arrays();

    let mut hd_map = HausdorffMapUndirected::new(&src, &dst, sp(1.0, 2.0, 3.0));
    hd_map.execute();

    let one = 1.0f32.to_bits();
    assert!(hd_map.hd_percentile(one).eq(&hd_map.hd()));
    assert!(f32::from_bits(hd_map.avg_hd_percentile(0.95f32.to_bits()).unwrap()).eq(&1.5));
    assert!(f32::from_bits(hd_map.avg_hd_percentile(0.0f32.to_bits()).unwrap()).eq(&0.0));
}

#[test]
fn test_hausdorff_identical_volume_is_zero() {
    let (src, _) = generate_src_dst_arrays();
    let mut d = HausdorffMapDirected::new(&src, &src, sp(1.0, 2.0, 3.0));
    d.execute();
    assert_eq!(f32::from_bits(d.hd().unwrap()), 0.0);

    let mut u = HausdorffMapUndirected::new(&src, &src, sp(1.0, 2.0, 3.0));
    u.execute();
    assert_eq!(f32::from_bits(u.hd().unwrap()), 0.0);
}

#[test]
fn test_symmetric_hd_is_max_of_directed() {
    let (src, dst) = generate_src_dst_arrays();
    let spacing = sp(1.0, 2.0, 3.0);
    let mut fwd = HausdorffMapDirected::new(&src, &dst, spacing);
    fwd.execute();
    let mut bwd = HausdorffMapDirected::new(&dst, &src, spacing);
    bwd.execute();
    let mut u = HausdorffMapUndirected::new(&src, &dst, spacing);
    u.execute();

    let f = fwd.hd().unwrap();
    let b = bwd.hd().unwrap();
    let s = u.hd().unwrap();
    assert!(s >= f && s >= b);
    assert!(s == f.max(b));
}

#[test]
fn test_directed_hd_offset_blocks() {
    // Two rectangular blocks offset by one voxel along the x axis with
    // spacing (2, 1, 1): every reference boundary voxel is at most one
    // x-step from the other boundary.
    let reference = grid_from(
        1,
        4,
        4,
        &[
            0, 0, 0, 0, //
            0, 1, 1, 0, //
            0, 1, 1, 0, //
            0, 0, 0, 0,
        ],
    );
    let other = grid_from(
        1,
        4,
        4,
        &[
            0, 0, 0, 0, //
            0, 0, 1, 1, //
            0, 0, 1, 1, //
            0, 0, 0, 0,
        ],
    );
    let mut d = HausdorffMapDirected::new(&reference, &other, sp(2.0, 1.0, 1.0));
    d.execute();
    assert_eq!(f32::from_bits(d.hd().unwrap()), 1.0);
}

#[test]
fn test_asd_and_symmetric_means() {
    // Reference boundary {(0,0,0), (0,0,1)}, other boundary {(0,0,0)} at
    // unit spacing: directed distances are [0, 1] one way and [0] back.
    let reference = grid_from(1, 1, 2, &[1, 1]);
    let other = grid_from(1, 1, 2, &[1, 0]);
    let spacing = sp(1.0, 1.0, 1.0);

    let mut fwd = HausdorffMapDirected::new(&reference, &other, spacing);
    fwd.execute();
    assert_eq!(f32::from_bits(fwd.asd().unwrap()), 0.5);
    assert_eq!(f32::from_bits(fwd.hd().unwrap()), 1.0);

    let mut u = HausdorffMapUndirected::new(&reference, &other, spacing);
    u.execute();
    assert_eq!(f32::from_bits(u.hd().unwrap()), 1.0);
    assert_eq!(f32::from_bits(u.avg_hd().unwrap()), 0.5);
    assert_eq!(f32::from_bits(u.assd().unwrap()), 0.25);
}

#[test]
fn test_diagonal_distance() {
    // One voxel against its diagonal neighbor in the slice at unit spacing:
    // the distance is sqrt(2).
    let reference = grid_from(1, 2, 2, &[1, 0, 0, 0]);
    let other = grid_from(1, 2, 2, &[0, 0, 0, 1]);
    let mut d = HausdorffMapDirected::new(&reference, &other, sp(1.0, 1.0, 1.0));
    d.execute();
    assert_eq!(f32::from_bits(d.hd().unwrap()), 2.0f32.sqrt());
}

#[test]
fn test_surface_dc_monotone_in_tolerance() {
    let (src, dst) = generate_src_dst_arrays();
    let mut d = HausdorffMapDirected::new(&src, &dst, sp(3.09, 4.1231, 2.343));
    d.execute();
    let mut prev = 0.0f32;
    for t in [0.0f32, 0.5, 1.0, 1.5, 2.0, 2.5, 3.0, 10.0] {
        let cur = f32::from_bits(d.surface_dc(t.to_bits()).unwrap());
        assert!(cur >= prev);
        assert!(cur <= 1.0);
        prev = cur;
    }
}

#[test]
fn test_empty_boundary_gives_none() {
    // The other volume has no set voxel, so there is no distance list and
    // no statistic.
    let mut reference = VoxelGrid::new_filled(1, 3, 3, false).unwrap();
    reference.set(0, 1, 1, true);
    let empty = VoxelGrid::new_filled(1, 3, 3, false).unwrap();
    let mut d = HausdorffMapDirected::new(&reference, &empty, sp(1.0, 1.0, 1.0));
    d.execute();
    assert!(d.hd().is_none());
    assert!(d.asd().is_none());
    assert!(d.hd_percentile(1.0f32.to_bits()).is_none());
    assert!(d.surface_dc(1.0f32.to_bits()).is_none());

    let mut u = HausdorffMapUndirected::new(&reference, &empty, sp(1.0, 1.0, 1.0));
    u.execute();
    // With one volume empty both distance lists are empty (the backward map
    // has no reference points), so no symmetric statistic has a value.
    assert!(u.hd().is_none());
    assert!(u.avg_hd().is_none());
    assert!(u.assd().is_none());
    assert!(u.hd_percentile(1.0f32.to_bits()).is_none());
    assert!(u.avg_hd_percentile(1.0f32.to_bits()).is_none());
}

#[test]
fn test_spacing_new_rejects_invalid() {
    assert!(Spacing::new(0.0f32.to_bits(), 1.0f32.to_bits(), 1.0f32.to_bits()).is_none());
    assert!(Spacing::new(1.0f32.to_bits(), (-1.0f32).to_bits(), 1.0f32.to_bits()).is_none());
    assert!(Spacing::new(1.0f32.to_bits(), 1.0f32.to_bits(), f32::NAN.to_bits()).is_none());
    assert!(Spacing::new(2.0f32.to_bits(), 1.0f32.to_bits(), 0.5f32.to_bits()).is_some());
}
