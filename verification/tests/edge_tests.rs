use volumetrics::grid::VoxelGrid;
use volumetrics::utils::clip_value;
use volumetrics::utils::generate_edge;

fn filled(dim_z: usize, dim_y: usize, dim_x: usize, fill: bool) -> VoxelGrid {
    VoxelGrid::new_filled(dim_z, dim_y, dim_x, fill).unwrap()
}

#[test]
fn test_generate_edge_2d() {
    let mut src = filled(3, 5, 5, false);
    for z in 0..3 {
        for y in 1..4 {
            for x in 1..4 {
                src.set(z, y, x, true);
            }
        }
    }
    let mut dst = src.duplicate();
    for z in 0..3 {
        dst.set(z, 2, 2, false);
    }

    let edge = generate_edge(&src, true);
    assert!(edge.data == dst.data);
    assert_eq!(edge.dim_z, dst.dim_z);
    assert_eq!(edge.dim_y, dst.dim_y);
    assert_eq!(edge.dim_x, dst.dim_x);
}

#[test]
fn test_generate_edge_3d() {
    let mut src = filled(3, 5, 5, false);
    for z in 0..3 {
        for y in 1..4 {
            for x in 1..4 {
                src.set(z, y, x, true);
            }
        }
    }
    let mut dst = src.duplicate();
    dst.set(1, 2, 2, false);

    let edge = generate_edge(&src, false);
    assert!(edge.data == dst.data);
}

#[test]
fn test_boundary_subset_and_shape() {
    // Every boundary voxel is set in the input, in both modes.
    let mut src = filled(4, 6, 5, false);
    for z in 1..3 {
        for y in 0..6 {
            for x in 2..5 {
                src.set(z, y, x, true);
            }
        }
    }
    for planar in [true, false] {
        let edge = generate_edge(&src, planar);
        assert_eq!(edge.dim_z, src.dim_z);
        assert_eq!(edge.dim_y, src.dim_y);
        assert_eq!(edge.dim_x, src.dim_x);
        for i in 0..edge.data.len() {
            if edge.data[i] {
                assert!(src.data[i]);
            }
        }
    }
}

#[test]
fn test_boundary_roundtrip_thin_shell() {
    // A ring is already boundary-only: extracting its boundary again gives
    // the ring unchanged.
    let mut ring = filled(3, 5, 5, false);
    for z in 0..3 {
        for y in 1..4 {
            for x in 1..4 {
                ring.set(z, y, x, true);
            }
        }
        ring.set(z, 2, 2, false);
    }
    let again = generate_edge(&ring, true);
    assert!(again.data == ring.data);
}

#[test]
fn test_full_volume_boundary_is_shell() {
    // In a fully set volume only the outer shell voxels keep an incomplete
    // window.
    let src = filled(3, 3, 3, true);
    let edge = generate_edge(&src, false);
    for z in 0..3usize {
        for y in 0..3usize {
            for x in 0..3usize {
                let expected = !(z == 1 && y == 1 && x == 1);
                assert_eq!(edge.get(z, y, x), expected);
            }
        }
    }
}

#[test]
fn test_clip_value() {
    assert_eq!(clip_value(&5, &0, &10), 5);
    assert_eq!(clip_value(&5, &6, &10), 6);
    assert_eq!(clip_value(&15, &0, &10), 10);
}
