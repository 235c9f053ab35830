use volumetrics::grid::VoxelGrid;
use volumetrics::overlap::ConfusionMatrix;

fn filled(dim_z: usize, dim_y: usize, dim_x: usize, fill: bool) -> VoxelGrid {
    VoxelGrid::new_filled(dim_z, dim_y, dim_x, fill).unwrap()
}

fn dice(cm: &ConfusionMatrix) -> f32 {
    f32::from_bits(cm.dc().unwrap())
}

fn jacc(cm: &ConfusionMatrix) -> f32 {
    f32::from_bits(cm.jc().unwrap())
}

#[test]
fn test_dc() {
    let src = filled(10, 10, 10, true);
    let mut dst = filled(10, 10, 10, false);

    for z in 0..5 {
        for y in 0..10 {
            for x in 0..10 {
                dst.set(z, y, x, true);
            }
        }
    }
    let mut cm = ConfusionMatrix::new(&src, &dst);
    cm.execute();
    assert_eq!(dice(&cm), 0.6666667);

    for z in 0..10 {
        for y in 0..10 {
            for x in 0..10 {
                dst.set(z, y, x, true);
            }
        }
    }
    let mut cm = ConfusionMatrix::new(&src, &dst);
    cm.execute();
    assert_eq!(dice(&cm), 1.0);

    for z in 0..10 {
        for y in 0..10 {
            for x in 0..10 {
                dst.set(z, y, x, false);
            }
        }
    }
    let mut cm = ConfusionMatrix::new(&src, &dst);
    cm.execute();
    assert_eq!(dice(&cm), 0.0);
}

#[test]
fn test_jc() {
    let src = filled(10, 10, 10, true);
    let mut dst = filled(10, 10, 10, false);

    for z in 0..5 {
        for y in 0..10 {
            for x in 0..10 {
                dst.set(z, y, x, true);
            }
        }
    }
    let mut cm = ConfusionMatrix::new(&src, &dst);
    cm.execute();
    assert_eq!(jacc(&cm), 0.5);

    for z in 0..10 {
        for y in 0..10 {
            for x in 0..10 {
                dst.set(z, y, x, true);
            }
        }
    }
    let mut cm = ConfusionMatrix::new(&src, &dst);
    cm.execute();
    assert_eq!(jacc(&cm), 1.0);

    for z in 0..10 {
        for y in 0..10 {
            for x in 0..10 {
                dst.set(z, y, x, false);
            }
        }
    }
    let mut cm = ConfusionMatrix::new(&src, &dst);
    cm.execute();
    assert_eq!(jacc(&cm), 0.0);
}

#[test]
fn test_confusion_counts_scenario() {
    // All-true reference against a half-true other: TP = 500, FP = 0,
    // FN = 500, TN = 0.
    let src = filled(10, 10, 10, true);
    let mut dst = filled(10, 10, 10, false);
    for z in 0..5 {
        for y in 0..10 {
            for x in 0..10 {
                dst.set(z, y, x, true);
            }
        }
    }
    let mut cm = ConfusionMatrix::new(&src, &dst);
    cm.execute();
    assert_eq!(cm.tpos, 500);
    assert_eq!(cm.fpos, 0);
    assert_eq!(cm.fneg, 500);
    assert_eq!(cm.tneg, 0);
    assert_eq!(cm.tpos + cm.tneg + cm.fpos + cm.fneg, 1000);
}

#[test]
fn test_identical_volumes_overlap() {
    let mut v = filled(2, 3, 4, false);
    v.set(0, 1, 2, true);
    v.set(1, 0, 0, true);
    v.set(1, 2, 3, true);
    let mut cm = ConfusionMatrix::new(&v, &v);
    cm.execute();
    assert_eq!(dice(&cm), 1.0);
    assert_eq!(jacc(&cm), 1.0);
}

#[test]
fn test_disjoint_volumes_overlap() {
    let mut a = filled(2, 3, 4, false);
    let mut b = filled(2, 3, 4, false);
    a.set(0, 0, 0, true);
    a.set(1, 1, 1, true);
    b.set(0, 2, 3, true);
    b.set(1, 2, 0, true);
    let mut cm = ConfusionMatrix::new(&a, &b);
    cm.execute();
    assert_eq!(dice(&cm), 0.0);
    assert_eq!(jacc(&cm), 0.0);
}

#[test]
fn test_overlap_undefined_on_empty_masks() {
    // Both masks entirely empty: 0/0 has no defined value.
    let a = filled(2, 2, 2, false);
    let mut cm = ConfusionMatrix::new(&a, &a);
    cm.execute();
    assert!(cm.dc().is_none());
    assert!(cm.jc().is_none());
}
