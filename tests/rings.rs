use endfind::rings::{catalog, ring_for, ring_for_squared, RadialDistance, Ring};

fn at(whole: u64, above: bool) -> RadialDistance {
    RadialDistance { whole, above }
}

#[test]
fn catalog_holds_eight_rings_in_order() {
    let rings = catalog();
    assert_eq!(rings.len(), 8);
    let expected: [(u32, u32, u32); 8] = [
        (1408, 2688, 3),
        (4480, 5760, 6),
        (7552, 8832, 10),
        (10624, 11904, 15),
        (13696, 14976, 21),
        (16768, 18048, 28),
        (19840, 21120, 36),
        (22912, 24192, 9),
    ];
    for (i, (inner, outer, count)) in expected.iter().enumerate() {
        assert_eq!(
            rings[i],
            Ring { inner_radius: *inner, outer_radius: *outer, count: *count, index: i as u32 }
        );
    }
}

#[test]
fn ring_for_inside_first_ring() {
    let ring = ring_for(at(2000, false)).unwrap();
    assert_eq!(ring.index, 0);
    assert_eq!(ring.count, 3);
}

#[test]
fn ring_for_each_ring_midpoint() {
    for ring in catalog() {
        let mid = (ring.inner_radius as u64 + ring.outer_radius as u64) / 2;
        assert_eq!(ring_for(at(mid, true)), Some(ring));
    }
}

#[test]
fn ring_for_gap_between_first_two_rings() {
    assert_eq!(ring_for(at(3000, false)), None);
    assert_eq!(ring_for(at(2688, true)), None);
    assert_eq!(ring_for(at(4479, true)), None);
}

#[test]
fn ring_for_bounds_are_inclusive() {
    assert_eq!(ring_for(at(1408, false)).map(|r| r.index), Some(0));
    assert_eq!(ring_for(at(2688, false)).map(|r| r.index), Some(0));
    assert_eq!(ring_for(at(4480, false)).map(|r| r.index), Some(1));
    assert_eq!(ring_for(at(24192, false)).map(|r| r.index), Some(7));
    assert_eq!(ring_for(at(1407, true)), None);
    assert_eq!(ring_for(at(24192, true)), None);
}

#[test]
fn ring_for_near_origin_and_far_away() {
    assert_eq!(ring_for(at(0, false)), None);
    assert_eq!(ring_for(at(100_000, false)), None);
    assert_eq!(ring_for(at(u64::MAX, true)), None);
}

#[test]
fn ring_for_squared_matches_exact_bounds() {
    assert_eq!(ring_for_squared(2000 * 2000).map(|r| r.index), Some(0));
    assert_eq!(ring_for_squared(1408 * 1408).map(|r| r.index), Some(0));
    assert_eq!(ring_for_squared(1408 * 1408 - 1), None);
    assert_eq!(ring_for_squared(2688 * 2688).map(|r| r.index), Some(0));
    assert_eq!(ring_for_squared(2688 * 2688 + 1), None);
    assert_eq!(ring_for_squared(20000 * 20000).map(|r| r.index), Some(6));
    assert_eq!(ring_for_squared(u128::MAX), None);
}
