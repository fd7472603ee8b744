use vstd::prelude::*;

verus! {

/// One annulus around the world origin holding `count` equally spaced candidate
/// positions between `inner_radius` and `outer_radius` (world units, inclusive).
#[derive(Clone, Copy, Debug, PartialEq, Eq, Structural)]
pub struct Ring {
    pub inner_radius: u32,
    pub outer_radius: u32,
    pub count: u32,
    pub index: u32,
}

/// A non-negative radial distance as the ring lookup reads it: its integer part,
/// and whether the distance lies strictly above that integer.
#[derive(Clone, Copy, Debug, PartialEq, Eq, Structural)]
pub struct RadialDistance {
    pub whole: u64,
    pub above: bool,
}

pub open spec fn ring_of(inner: u32, outer: u32, count: u32, index: u32) -> Ring {
    Ring { inner_radius: inner, outer_radius: outer, count, index }
}

/// The fixed catalog of rings, innermost first.
pub open spec fn spec_catalog() -> Seq<Ring> {
    seq![
        ring_of(1408, 2688, 3, 0),
        ring_of(4480, 5760, 6, 1),
        ring_of(7552, 8832, 10, 2),
        ring_of(10624, 11904, 15, 3),
        ring_of(13696, 14976, 21, 4),
        ring_of(16768, 18048, 28, 5),
        ring_of(19840, 21120, 36, 6),
        ring_of(22912, 24192, 9, 7),
    ]
}

pub open spec fn ring_well_formed(ring: Ring) -> bool {
    0 < ring.inner_radius < ring.outer_radius && ring.count > 0
}

/// The real distance described by `d` lies in `[inner_radius, outer_radius]`.
pub open spec fn ring_contains(ring: Ring, d: RadialDistance) -> bool {
    &&& ring.inner_radius <= d.whole
    &&& (d.whole < ring.outer_radius || (d.whole == ring.outer_radius && !d.above))
}

/// The distance whose square is `d2` lies in `[inner_radius, outer_radius]`.
pub open spec fn ring_contains_squared(ring: Ring, d2: int) -> bool {
    ring.inner_radius * ring.inner_radius <= d2 <= ring.outer_radius * ring.outer_radius
}

/// `i` is the position of the first ring of the catalog that contains `d`.
pub open spec fn first_containing(i: int, d: RadialDistance) -> bool {
    &&& 0 <= i < spec_catalog().len()
    &&& ring_contains(spec_catalog()[i], d)
    &&& forall|j: int| 0 <= j < i ==> !ring_contains(#[trigger] spec_catalog()[j], d)
}

/// `i` is the position of the first ring of the catalog that contains the distance
/// whose square is `d2`.
pub open spec fn first_containing_squared(i: int, d2: int) -> bool {
    &&& 0 <= i < spec_catalog().len()
    &&& ring_contains_squared(spec_catalog()[i], d2)
    &&& forall|j: int| 0 <= j < i ==> !ring_contains_squared(#[trigger] spec_catalog()[j], d2)
}

/// The ring catalog, innermost first.
pub fn catalog() -> (rings: Vec<Ring>)
    ensures
        rings@ == spec_catalog(),
{
    let mut rings: Vec<Ring> = Vec::new();
    rings.push(Ring { inner_radius: 1408, outer_radius: 2688, count: 3, index: 0 });
    rings.push(Ring { inner_radius: 4480, outer_radius: 5760, count: 6, index: 1 });
    rings.push(Ring { inner_radius: 7552, outer_radius: 8832, count: 10, index: 2 });
    rings.push(Ring { inner_radius: 10624, outer_radius: 11904, count: 15, index: 3 });
    rings.push(Ring { inner_radius: 13696, outer_radius: 14976, count: 21, index: 4 });
    rings.push(Ring { inner_radius: 16768, outer_radius: 18048, count: 28, index: 5 });
    rings.push(Ring { inner_radius: 19840, outer_radius: 21120, count: 36, index: 6 });
    rings.push(Ring { inner_radius: 22912, outer_radius: 24192, count: 9, index: 7 });
    assert(rings@ =~= spec_catalog());
    rings
}

/// The first ring of the catalog whose closed radial band contains `distance`.
pub fn ring_for(distance: RadialDistance) -> (r: Option<Ring>)
    ensures
        r is None <==> forall|i: int|
            0 <= i < spec_catalog().len() ==> !ring_contains(#[trigger] spec_catalog()[i], distance),
        r matches Some(ring) ==> exists|i: int|
            first_containing(i, distance) && spec_catalog()[i] == ring,
{
    let rings = catalog();
    let mut i: usize = 0;
    while i < rings.len()
        invariant
            rings@ == spec_catalog(),
            i <= rings.len(),
            forall|j: int| 0 <= j < i ==> !ring_contains(#[trigger] spec_catalog()[j], distance),
        decreases rings.len() - i,
    {
        let ring = rings[i];
        let whole = distance.whole;
        if ring.inner_radius as u64 <= whole && (whole < ring.outer_radius as u64 || (whole
            == ring.outer_radius as u64 && !distance.above)) {
            assert(first_containing(i as int, distance));
            return Some(ring);
        }
        i += 1;
    }
    None
}

/// The first ring of the catalog whose closed radial band contains the distance
/// whose square is `distance_sq`; the comparison is made on squares, so it is exact.
pub fn ring_for_squared(distance_sq: u128) -> (r: Option<Ring>)
    ensures
        r is None <==> forall|i: int|
            0 <= i < spec_catalog().len() ==> !ring_contains_squared(
                #[trigger] spec_catalog()[i],
                distance_sq as int,
            ),
        r matches Some(ring) ==> exists|i: int|
            first_containing_squared(i, distance_sq as int) && spec_catalog()[i] == ring,
{
    let rings = catalog();
    let mut i: usize = 0;
    while i < rings.len()
        invariant
            rings@ == spec_catalog(),
            i <= rings.len(),
            forall|j: int|
                0 <= j < i ==> !ring_contains_squared(
                    #[trigger] spec_catalog()[j],
                    distance_sq as int,
                ),
        decreases rings.len() - i,
    {
        let ring = rings[i];
        let inner = ring.inner_radius as u128;
        let outer = ring.outer_radius as u128;
        assert(inner * inner <= u32::MAX * u32::MAX) by (nonlinear_arith)
            requires
                inner <= u32::MAX,
        ;
        assert(outer * outer <= u32::MAX * u32::MAX) by (nonlinear_arith)
            requires
                outer <= u32::MAX,
        ;
        if inner * inner <= distance_sq && distance_sq <= outer * outer {
            assert(first_containing_squared(i as int, distance_sq as int));
            return Some(ring);
        }
        i += 1;
    }
    None
}

/// Every ring of the catalog is well formed, and the rings are listed from the
/// innermost out with a gap between neighbours.
pub proof fn lemma_catalog_ordered()
    ensures
        forall|i: int| 0 <= i < spec_catalog().len() ==> ring_well_formed(#[trigger] spec_catalog()[i]),
        forall|i: int, j: int|
            0 <= i < j < spec_catalog().len() ==> (#[trigger] spec_catalog()[i]).outer_radius
                < (#[trigger] spec_catalog()[j]).inner_radius,
{
}

/// No distance lies in two rings, so the lookup's result does not depend on which
/// containing ring it would prefer.
pub proof fn lemma_rings_disjoint(d: RadialDistance, i: int, j: int)
    requires
        0 <= i < spec_catalog().len(),
        0 <= j < spec_catalog().len(),
        ring_contains(spec_catalog()[i], d),
        ring_contains(spec_catalog()[j], d),
    ensures
        i == j,
{
    lemma_catalog_ordered();
    if i < j {
        assert(spec_catalog()[i].outer_radius < spec_catalog()[j].inner_radius);
    } else if j < i {
        assert(spec_catalog()[j].outer_radius < spec_catalog()[i].inner_radius);
    }
}

/// A distance strictly between the outer radius of the first ring and the inner
/// radius of the second lies in no ring.
pub proof fn lemma_gap_after_first_ring(d: RadialDistance)
    requires
        d.whole > 2688 || (d.whole == 2688 && d.above),
        d.whole < 4480,
    ensures
        forall|i: int| 0 <= i < spec_catalog().len() ==> !ring_contains(#[trigger] spec_catalog()[i], d),
{
}

/// Looking a distance up by its square agrees with looking it up by its integer part
/// and whether it lies above that integer.
pub proof fn lemma_squared_lookup_agrees(d2: int, d: RadialDistance, ring: Ring)
    requires
        d.whole * d.whole <= d2 < (d.whole + 1) * (d.whole + 1),
        d.above == (d.whole * d.whole < d2),
    ensures
        ring_contains_squared(ring, d2) == ring_contains(ring, d),
{
    let w = d.whole as int;
    let a = ring.inner_radius as int;
    let b = ring.outer_radius as int;
    assert(a <= w ==> a * a <= w * w) by (nonlinear_arith)
        requires
            a >= 0,
    ;
    assert(a > w ==> a * a >= (w + 1) * (w + 1)) by (nonlinear_arith)
        requires
            w >= 0,
    ;
    assert(w < b ==> (w + 1) * (w + 1) <= b * b) by (nonlinear_arith)
        requires
            w >= 0,
    ;
    assert(w > b ==> w * w > b * b) by (nonlinear_arith)
        requires
            b >= 0,
    ;
}

} // verus!
