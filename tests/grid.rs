use endfind::grid::{
    cell_center, cell_distance_squared, cell_in_band, cell_ring, nether_coordinate, search_cells,
};

#[test]
fn cell_centers() {
    assert_eq!(cell_center(0), 8);
    assert_eq!(cell_center(-1), -8);
    assert_eq!(cell_center(124), 1992);
    assert_eq!(cell_center(i32::MIN), i32::MIN as i64 * 16 + 8);
}

#[test]
fn cell_distances() {
    assert_eq!(cell_distance_squared(0, 0), 128);
    assert_eq!(cell_distance_squared(124, 0), 1992 * 1992 + 64);
    let far = i32::MIN as i128 * 16 + 8;
    assert_eq!(cell_distance_squared(i32::MIN, i32::MIN), (2 * far * far) as u128);
}

#[test]
fn band_rejects_origin_and_far_cells() {
    assert!(!cell_in_band(0, 0));
    assert!(cell_in_band(0, 124));
    assert!(cell_in_band(80, 0));
    assert!(!cell_in_band(79, 0));
    assert!(cell_in_band(0, 1519));
    assert!(!cell_in_band(0, 1520));
}

#[test]
fn cell_ring_inside_and_in_gaps() {
    assert_eq!(cell_ring(0, 124).map(|r| r.index), Some(0));
    assert_eq!(cell_ring(-125, 0).map(|r| r.index), Some(0));
    assert_eq!(cell_ring(0, 220), None);
    assert_eq!(cell_ring(0, 0), None);
    assert_eq!(cell_ring(0, 1300).map(|r| r.index), Some(6));
}

fn brute_force(radius: i32, step: i32) -> Vec<(i32, i32)> {
    let mut out = Vec::new();
    let mut x = -(radius as i64);
    while x < radius as i64 {
        let mut z = -(radius as i64);
        while z < radius as i64 {
            let bx = x * 16 + 8;
            let bz = z * 16 + 8;
            let d = ((bx * bx + bz * bz) as f64).sqrt();
            if (1280.0..=24320.0).contains(&d) {
                out.push((x as i32, z as i32));
            }
            z += step as i64;
        }
        x += step as i64;
    }
    out
}

#[test]
fn search_cells_near_origin_is_empty() {
    assert!(search_cells(10, 1).is_empty());
    assert!(search_cells(0, 1).is_empty());
    assert!(search_cells(-300, 7).is_empty());
}

#[test]
fn search_cells_follow_row_major_scan() {
    for (radius, step) in [(200, 40), (150, 7), (1600, 100), (300, 1)] {
        let cells = search_cells(radius, step);
        assert_eq!(cells, brute_force(radius, step));
        for w in cells.windows(2) {
            assert!(w[0] < w[1]);
        }
    }
}

#[test]
fn search_cells_first_cells() {
    let cells = search_cells(200, 40);
    assert_eq!(cells[0], (-200, -200));
    assert!(cells.contains(&(0, 120)));
    assert!(!cells.contains(&(0, 0)));
}

#[test]
fn nether_coordinates_round_toward_zero() {
    assert_eq!(nether_coordinate(0), 0);
    assert_eq!(nether_coordinate(2008), 251);
    assert_eq!(nether_coordinate(15), 1);
    assert_eq!(nether_coordinate(-15), -1);
    assert_eq!(nether_coordinate(-7), 0);
    assert_eq!(nether_coordinate(i64::MIN), i64::MIN / 8);
    assert_eq!(nether_coordinate(i64::MAX), i64::MAX / 8);
}
