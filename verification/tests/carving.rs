use seam_carver::cost_matrix::min2;
use seam_carver::cost_matrix::min3;
use seam_carver::CarveError;
use seam_carver::CostMatrix;
use seam_carver::EnergyMatrix;
use seam_carver::Entry;
use seam_carver::Pixel;
use seam_carver::Raster;
use seam_carver::ResizeDimension;
use seam_carver::Seamcarver;
use seam_carver::MAX_DIMENSION;
use std::cell::Cell;

fn gray(v: u8) -> Pixel {
    Pixel { r: v, g: v, b: v }
}

fn gray_raster(values: &[&[u8]]) -> Raster {
    let rows: Vec<Vec<Pixel>> = values
        .iter()
        .map(|row| row.iter().map(|&v| gray(v)).collect())
        .collect();
    Raster::new(rows).unwrap()
}

#[test]
fn test_raster_rejects_bad_grids() {
    assert!(Raster::new(vec![]).is_none());
    assert!(Raster::new(vec![vec![]]).is_none());
    assert!(Raster::new(vec![vec![gray(1), gray(2)], vec![gray(3)]]).is_none());
    assert!(Raster::new(vec![vec![gray(1)], vec![gray(2)]]).is_some());
}

// Every cell's energy of a 3x3 grayscale raster, including the toroidal
// wraparound at all four edges. For gray pixels a gradient term is three
// times the squared difference of the neighbor values.
#[test]
fn test_energy_closed_form() {
    let raster = gray_raster(&[&[0, 1, 2], &[3, 4, 5], &[6, 7, 8]]);
    let em = EnergyMatrix::new(&raster);
    assert_eq!(em.width(), 3);
    assert_eq!(em.height(), 3);
    let expected: [[u32; 3]; 3] = [[30, 39, 30], [111, 120, 111], [30, 39, 30]];
    for y in 0..3 {
        for x in 0..3 {
            assert_eq!(em.get_energy(x, y), expected[y][x]);
        }
    }
}

#[test]
fn test_energy_from_rows_validation() {
    assert!(EnergyMatrix::from_rows(vec![]).is_none());
    assert!(EnergyMatrix::from_rows(vec![vec![]]).is_none());
    assert!(EnergyMatrix::from_rows(vec![vec![1, 2], vec![3]]).is_none());
    // 390150 is the largest energy a pixel can have; more is rejected.
    assert!(EnergyMatrix::from_rows(vec![vec![390151]]).is_none());
    assert!(EnergyMatrix::from_rows(vec![vec![390150]]).is_some());
}

#[test]
fn test_min2_min3_tie_breaks() {
    let row = vec![
        Entry { cost: 2, prev: None },
        Entry { cost: 2, prev: None },
        Entry { cost: 2, prev: None },
        Entry { cost: 1, prev: None },
    ];
    // Ties fall to the second index in the pair...
    assert_eq!(min2(&row, 0, 1), 1);
    assert_eq!(min2(&row, 3, 1), 3);
    // ...and to the rightmost candidate in the three-way rule.
    assert_eq!(min3(&row, 0, 1, 2), 2);
    assert_eq!(min3(&row, 0, 3, 2), 3);
}

// Cumulative costs, the exact tie-break outcome, and the extracted seam
// of a hand-built energy grid; derived by hand from the recurrence.
#[test]
fn test_cost_matrix_hand_grid() {
    let em = EnergyMatrix::from_rows(vec![vec![1, 2, 1], vec![1, 1, 1], vec![5, 0, 5]]).unwrap();
    let cm = CostMatrix::new(&em);
    assert_eq!(cm.width(), 3);
    assert_eq!(cm.height(), 3);

    let expected_costs: [[u32; 3]; 3] = [[1, 2, 1], [2, 2, 2], [7, 2, 7]];
    let expected_prev: [[Option<usize>; 3]; 3] = [
        [None, None, None],
        // At x=1 the left and right candidate tie: the rule falls
        // through to the right one, not to a leftmost argmin.
        [Some(0), Some(2), Some(2)],
        [Some(1), Some(2), Some(2)],
    ];
    for y in 0..3 {
        for x in 0..3 {
            let e = cm.entry(x, y);
            assert_eq!(e.cost, expected_costs[y][x]);
            assert_eq!(e.prev, expected_prev[y][x]);
        }
    }

    let seam = cm.min_cost_seam();
    assert_eq!(seam, vec![2, 2, 1]);

    // Re-running the whole computation yields the identical seam.
    let em2 = EnergyMatrix::from_rows(vec![vec![1, 2, 1], vec![1, 1, 1], vec![5, 0, 5]]).unwrap();
    let cm2 = CostMatrix::new(&em2);
    assert_eq!(cm2.min_cost_seam(), seam);
}

// In the bottom row, an equal-cost tie goes to the leftmost occurrence.
#[test]
fn test_seam_start_leftmost_tie() {
    let em = EnergyMatrix::from_rows(vec![vec![3, 1, 1, 3]]).unwrap();
    let cm = CostMatrix::new(&em);
    assert_eq!(cm.min_cost_seam(), vec![1]);
}

#[test]
fn test_seam_connectivity() {
    let raster = gray_raster(&[
        &[10, 200, 3, 40, 90],
        &[7, 12, 250, 1, 33],
        &[99, 2, 18, 77, 5],
        &[60, 120, 9, 30, 201],
    ]);
    let em = EnergyMatrix::new(&raster);
    let cm = CostMatrix::new(&em);
    let seam = cm.min_cost_seam();
    assert_eq!(seam.len(), 4);
    for y in 0..seam.len() {
        assert!(seam[y] < 5);
    }
    for y in 0..seam.len() - 1 {
        let a = seam[y] as i64;
        let b = seam[y + 1] as i64;
        assert!((a - b).abs() <= 1);
    }
}

#[test]
fn test_target_larger_than_source() {
    let raster = gray_raster(&[&[1, 2, 3], &[4, 5, 6], &[7, 8, 9]]);
    let r = Seamcarver::new(raster, ResizeDimension::Width(4));
    assert_eq!(r.unwrap_err(), CarveError::TargetLargerThanSource);

    let raster = gray_raster(&[&[1, 2, 3], &[4, 5, 6], &[7, 8, 9]]);
    let r = Seamcarver::new(raster, ResizeDimension::WidthHeight(3, 4));
    assert_eq!(r.unwrap_err(), CarveError::TargetLargerThanSource);
}

#[test]
fn test_source_dimension_too_large() {
    assert_eq!(MAX_DIMENSION, 11008);
    let wide = Raster::new(vec![vec![gray(0); MAX_DIMENSION as usize + 1]]).unwrap();
    let r = Seamcarver::new(wide, ResizeDimension::Width(1));
    assert_eq!(r.unwrap_err(), CarveError::DimensionTooLarge);

    let widest = Raster::new(vec![vec![gray(0); MAX_DIMENSION as usize]]).unwrap();
    assert!(Seamcarver::new(widest, ResizeDimension::Width(1)).is_ok());
}

#[test]
fn test_error_messages() {
    assert_eq!(CarveError::DimensionTooLarge.message(), "image dimension too large");
    assert_eq!(
        CarveError::TargetLargerThanSource.message(),
        "target dimension larger than source"
    );
    assert_eq!(CarveError::InvalidDimensionSpec.message(), "invalid dimensions");
}

// Requesting the current exact dimensions removes zero seams and returns
// a pixel-identical raster.
#[test]
fn test_zero_seam_identity() {
    let raster = gray_raster(&[&[9, 2, 7], &[4, 250, 6], &[1, 8, 3]]);
    let sc = Seamcarver::new(raster.clone(), ResizeDimension::WidthHeight(3, 3)).unwrap();
    assert_eq!(sc.num_seams_to_be_carved(), 0);
    let count = Cell::new(0u32);
    let out = sc.carve(|| count.set(count.get() + 1));
    assert_eq!(count.get(), 0);
    assert_eq!(out, raster);
}

#[test]
fn test_zero_seam_identity_single_pixel() {
    let raster = gray_raster(&[&[42]]);
    let sc = Seamcarver::new(raster.clone(), ResizeDimension::WidthHeight(1, 1)).unwrap();
    let out = sc.carve(|| {});
    assert_eq!(out, raster);
}

// A 10x10 raster carved to 8x10 loses exactly two vertical seams and no
// horizontal one, and every surviving row keeps the left-to-right order
// of its surviving source columns.
#[test]
fn test_end_to_end_width_carve() {
    let mut rows: Vec<Vec<Pixel>> = Vec::new();
    for _y in 0..10 {
        let mut row = Vec::new();
        for x in 0..10u8 {
            row.push(Pixel { r: x * 20, g: 0, b: 0 });
        }
        rows.push(row);
    }
    let raster = Raster::new(rows).unwrap();
    let sc = Seamcarver::new(raster, ResizeDimension::WidthHeight(8, 10)).unwrap();
    assert_eq!(sc.num_seams_to_be_carved(), 2);
    let count = Cell::new(0u32);
    let out = sc.carve(|| count.set(count.get() + 1));
    assert_eq!(count.get(), 2);
    assert_eq!(out.width(), 8);
    assert_eq!(out.height(), 10);
    for y in 0..10 {
        for x in 0..7 {
            // Column markers must still be strictly increasing.
            assert!(out.get(x, y).r < out.get(x + 1, y).r);
        }
    }
}

// Carving only a height reduction agrees pixel-for-pixel with: turn
// clockwise, carve the same amount off the width, turn back.
#[test]
fn test_axis_symmetry() {
    let mut rows: Vec<Vec<Pixel>> = Vec::new();
    for y in 0..3u8 {
        let mut row = Vec::new();
        for x in 0..4u8 {
            row.push(gray(y.wrapping_mul(40).wrapping_add(x.wrapping_mul(7))));
        }
        rows.push(row);
    }
    let raster = Raster::new(rows).unwrap();

    let direct = Seamcarver::new(raster.clone(), ResizeDimension::Height(2))
        .unwrap()
        .carve(|| {});

    let rotated = raster.rotated90();
    let carved = Seamcarver::new(rotated, ResizeDimension::Width(2))
        .unwrap()
        .carve(|| {});
    let manual = carved.rotated270();

    assert_eq!(direct.width(), 4);
    assert_eq!(direct.height(), 2);
    assert_eq!(direct, manual);
}

#[test]
fn test_rotation_roundtrip() {
    let raster = gray_raster(&[&[1, 2, 3], &[4, 5, 6]]);
    let back = raster.rotated90().rotated270();
    assert_eq!(back, raster);
    let turned = raster.rotated90();
    assert_eq!(turned.width(), 2);
    assert_eq!(turned.height(), 3);
    // Clockwise: the left column of the source becomes the top row.
    assert_eq!(turned.get(0, 0), gray(4));
    assert_eq!(turned.get(1, 0), gray(1));
}
