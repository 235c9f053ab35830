use volumetrics::apl::APL;
use volumetrics::grid::VoxelGrid;

fn grid_from(dim_z: usize, dim_y: usize, dim_x: usize, vals: &[u8]) -> VoxelGrid {
    assert_eq!(vals.len(), dim_z * dim_y * dim_x);
    let mut g = VoxelGrid::new_filled(dim_z, dim_y, dim_x, false).unwrap();
    let mut i = 0;
    for z in 0..dim_z {
        for y in 0..dim_y {
            for x in 0..dim_x {
                g.set(z, y, x, vals[i] != 0);
                i += 1;
            }
        }
    }
    g
}

#[test]
fn test_apl() {
    let src = grid_from(
        2,
        4,
        5,
        &[
            1, 1, 1, 0, 0, //
            1, 1, 1, 0, 0, //
            1, 1, 1, 0, 0, //
            0, 0, 0, 0, 0, //
            1, 1, 1, 0, 0, //
            1, 1, 1, 0, 0, //
            1, 1, 1, 0, 0, //
            0, 0, 0, 0, 0,
        ],
    );
    let dst = grid_from(
        2,
        4,
        5,
        &[
            1, 1, 1, 0, 0, //
            1, 1, 1, 0, 0, //
            1, 1, 1, 0, 0, //
            0, 0, 0, 0, 0, //
            0, 1, 1, 1, 0, //
            0, 1, 1, 1, 0, //
            0, 1, 1, 1, 0, //
            0, 1, 1, 1, 0,
        ],
    );

    let mut f = APL::new(&src, &dst);
    f.execute();
    println!("{}", f.apl());

    assert!(f.apl() == 7);
    assert!(f32::from_bits(f.apl_normalized().unwrap()) == 0.3888889);
}

#[test]
fn test_apl_identical_volumes() {
    let mut v = VoxelGrid::new_filled(2, 4, 4, false).unwrap();
    for y in 1..3 {
        for x in 1..3 {
            v.set(0, y, x, true);
            v.set(1, y, x, true);
        }
    }
    let mut f = APL::new(&v, &v);
    f.execute();
    assert_eq!(f.apl(), 0);
    assert_eq!(f32::from_bits(f.apl_normalized().unwrap()), 0.0);
}

#[test]
fn test_apl_normalized_undefined_without_boundary() {
    // The other volume has no boundary voxel, so the fraction has no
    // denominator.
    let mut src = VoxelGrid::new_filled(1, 3, 3, false).unwrap();
    src.set(0, 1, 1, true);
    let empty = VoxelGrid::new_filled(1, 3, 3, false).unwrap();
    let mut f = APL::new(&src, &empty);
    f.execute();
    assert_eq!(f.apl(), 0);
    assert!(f.apl_normalized().is_none());
}
