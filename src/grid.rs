use vstd::prelude::*;
use crate::rings::{
    Ring, ring_for_squared, spec_catalog, ring_contains_squared, first_containing_squared,
};

verus! {

/// Inner radius of the band that the search visits (world units).
pub const BAND_INNER: u128 = 1280;

/// Outer radius of the band that the search visits (world units).
pub const BAND_OUTER: u128 = 24320;

/// World coordinate of the center of the cell with index `c`: cells are 16 units wide.
pub open spec fn center(c: int) -> int {
    c * 16 + 8
}

/// Squared distance from the world origin to the center of cell `(cx, cz)`.
pub open spec fn center_distance_sq(cx: int, cz: int) -> int {
    center(cx) * center(cx) + center(cz) * center(cz)
}

/// The center of cell `(cx, cz)` lies within the searched band `[BAND_INNER, BAND_OUTER]`.
pub open spec fn in_band(cx: int, cz: int) -> bool {
    BAND_INNER * BAND_INNER <= center_distance_sq(cx, cz) <= BAND_OUTER * BAND_OUTER
}

/// `c` is one of the coordinates visited along an axis: `-radius, -radius + step, ...`,
/// below `radius`.
pub open spec fn on_axis(c: int, radius: int, step: int) -> bool {
    &&& -radius <= c < radius
    &&& (c + radius) % step == 0
}

/// Cell `a` comes before position `(x, z)` in the row-major scan (first coordinate
/// outer, both ascending).
pub open spec fn precedes(a: (i32, i32), x: int, z: int) -> bool {
    a.0 < x || (a.0 == x && a.1 < z)
}

/// `a` comes before `b` in the row-major scan.
pub open spec fn row_major_before(a: (i32, i32), b: (i32, i32)) -> bool {
    precedes(a, b.0 as int, b.1 as int)
}

/// `cells` is the search plan for a radius and a step: exactly the cells with both
/// coordinates on the axis whose centers lie in the band, each once, in row-major order.
pub open spec fn is_search_plan(cells: Seq<(i32, i32)>, radius: int, step: int) -> bool {
    &&& forall|k: int|
        0 <= k < cells.len() ==> {
            &&& on_axis(#[trigger] cells[k].0 as int, radius, step)
            &&& on_axis(cells[k].1 as int, radius, step)
            &&& in_band(cells[k].0 as int, cells[k].1 as int)
        }
    &&& forall|cx: i32, cz: i32|
        on_axis(cx as int, radius, step) && on_axis(cz as int, radius, step) && in_band(
            cx as int,
            cz as int,
        ) ==> #[trigger] cells.contains((cx, cz))
    &&& row_major_sorted(cells)
}

/// World coordinate of the center of cell `c`.
pub fn cell_center(c: i32) -> (r: i64)
    ensures
        r == center(c as int),
{
    c as i64 * 16 + 8
}

/// The coordinate in the nether that corresponds to an overworld coordinate: an
/// eighth of it, rounded toward zero.
pub fn nether_coordinate(overworld: i64) -> (r: i64)
    ensures
        overworld >= 0 ==> r == overworld / 8,
        overworld < 0 ==> r == -((-overworld) / 8),
{
    overworld / 8
}

/// Squared distance from the world origin to the center of cell `(cx, cz)`.
pub fn cell_distance_squared(cx: i32, cz: i32) -> (r: u128)
    ensures
        r == center_distance_sq(cx as int, cz as int),
{
    let bx = cell_center(cx) as i128;
    let bz = cell_center(cz) as i128;
    assert(bx * bx <= 0x10_0000_0000_i128 * 0x10_0000_0000_i128) by (nonlinear_arith)
        requires
            -0x10_0000_0000_i128 <= bx <= 0x10_0000_0000_i128,
    ;
    assert(bz * bz <= 0x10_0000_0000_i128 * 0x10_0000_0000_i128) by (nonlinear_arith)
        requires
            -0x10_0000_0000_i128 <= bz <= 0x10_0000_0000_i128,
    ;
    assert(bx * bx >= 0 && bz * bz >= 0) by (nonlinear_arith);
    (bx * bx + bz * bz) as u128
}

/// Whether the center of cell `(cx, cz)` lies in the searched band.
pub fn cell_in_band(cx: i32, cz: i32) -> (r: bool)
    ensures
        r == in_band(cx as int, cz as int),
{
    let d2 = cell_distance_squared(cx, cz);
    BAND_INNER * BAND_INNER <= d2 && d2 <= BAND_OUTER * BAND_OUTER
}

/// The first ring of the catalog that contains the center of cell `(cx, cz)`.
pub fn cell_ring(cx: i32, cz: i32) -> (r: Option<Ring>)
    ensures
        r is None <==> forall|i: int|
            0 <= i < spec_catalog().len() ==> !ring_contains_squared(
                #[trigger] spec_catalog()[i],
                center_distance_sq(cx as int, cz as int),
            ),
        r matches Some(ring) ==> exists|i: int|
            first_containing_squared(i, center_distance_sq(cx as int, cz as int))
                && spec_catalog()[i] == ring,
{
    ring_for_squared(cell_distance_squared(cx, cz))
}

/// Between two neighbouring coordinates of an axis lies no third one.
proof fn lemma_axis_gap(b: int, c: int, n: int, radius: int, step: int)
    requires
        step > 0,
        b + radius >= 0,
        (b + radius) % step == 0,
        c + radius == n * step,
        b < c + step,
    ensures
        b <= c,
{
    let m = (b + radius) / step;
    vstd::arithmetic::div_mod::lemma_fundamental_div_mod(b + radius, step);
    assert(b + radius == step * m);
    assert(m <= n) by (nonlinear_arith)
        requires
            step * m < n * step + step,
            step > 0,
    ;
    assert(step * m <= n * step) by (nonlinear_arith)
        requires
            m <= n,
            step > 0,
    ;
}

/// The cells that the posterior search evaluates, in the order it evaluates them:
/// both coordinates run over `-search_radius, -search_radius + grid_resolution, ...`
/// below `search_radius`, the first coordinate in the outer loop, and a cell is kept
/// only when its center lies in the searched band.
pub fn search_cells(search_radius: i32, grid_resolution: i32) -> (cells: Vec<(i32, i32)>)
    requires
        grid_resolution > 0,
        search_radius > i32::MIN,
    ensures
        is_search_plan(cells@, search_radius as int, grid_resolution as int),
{
    let radius = search_radius as i64;
    let step = grid_resolution as i64;
    let mut cells: Vec<(i32, i32)> = Vec::new();
    let mut cx: i64 = -radius;
    let ghost mut nx: int = 0;
    while cx < radius
        invariant
            step > 0,
            radius > i32::MIN,
            radius <= i32::MAX,
            step <= i32::MAX,
            -radius <= cx,
            cx == -radius || cx < radius + step,
            nx >= 0,
            cx + radius == nx * step,
            forall|k: int|
                0 <= k < cells.len() ==> {
                    &&& on_axis(#[trigger] cells@[k].0 as int, radius as int, step as int)
                    &&& on_axis(cells@[k].1 as int, radius as int, step as int)
                    &&& in_band(cells@[k].0 as int, cells@[k].1 as int)
                    &&& cells@[k].0 < cx
                },
            forall|a: i32, b: i32|
                on_axis(a as int, radius as int, step as int) && on_axis(
                    b as int,
                    radius as int,
                    step as int,
                ) && in_band(a as int, b as int) && a < cx ==> #[trigger] cells@.contains((a, b)),
            forall|k: int, l: int|
                0 <= k < l < cells.len() ==> row_major_before(
                    #[trigger] cells@[k],
                    #[trigger] cells@[l],
                ),
        decreases radius + step - cx,
    {
        let mut cz: i64 = -radius;
        let ghost mut nz: int = 0;
        while cz < radius
            invariant
                step > 0,
                radius > i32::MIN,
                radius <= i32::MAX,
                step <= i32::MAX,
                -radius <= cx < radius,
                nx >= 0,
                cx + radius == nx * step,
                -radius <= cz < radius + step,
                nz >= 0,
                cz + radius == nz * step,
                forall|k: int|
                    0 <= k < cells.len() ==> {
                        &&& on_axis(#[trigger] cells@[k].0 as int, radius as int, step as int)
                        &&& on_axis(cells@[k].1 as int, radius as int, step as int)
                        &&& in_band(cells@[k].0 as int, cells@[k].1 as int)
                        &&& precedes(cells@[k], cx as int, cz as int)
                    },
                forall|a: i32, b: i32|
                    on_axis(a as int, radius as int, step as int) && on_axis(
                        b as int,
                        radius as int,
                        step as int,
                    ) && in_band(a as int, b as int) && (a < cx || (a == cx && b < cz))
                        ==> #[trigger] cells@.contains((a, b)),
                forall|k: int, l: int|
                    0 <= k < l < cells.len() ==> row_major_before(
                        #[trigger] cells@[k],
                        #[trigger] cells@[l],
                    ),
            decreases radius + step - cz,
        {
            let x = cx as i32;
            let z = cz as i32;
            let ghost before = cells@;
            proof {
                vstd::arithmetic::div_mod::lemma_mod_multiples_basic(nx, step as int);
                vstd::arithmetic::div_mod::lemma_mod_multiples_basic(nz, step as int);
            }
            if cell_in_band(x, z) {
                cells.push((x, z));
                assert(cells@[cells.len() - 1] == (x, z));
                assert forall|a: i32, b: i32|
                    #[trigger] before.contains((a, b)) implies cells@.contains((a, b)) by {
                    let k = choose|k: int| 0 <= k < before.len() && before[k] == (a, b);
                    assert(cells@[k] == (a, b));
                }
            }
            proof {
                assert forall|b: i32|
                    on_axis(b as int, radius as int, step as int) && b < cz + step implies b
                    <= cz by {
                    lemma_axis_gap(b as int, cz as int, nz, radius as int, step as int);
                }
                assert forall|a: i32, b: i32|
                    on_axis(a as int, radius as int, step as int) && on_axis(
                        b as int,
                        radius as int,
                        step as int,
                    ) && in_band(a as int, b as int) && (a < cx || (a == cx && b < cz + step))
                        implies #[trigger] cells@.contains((a, b)) by {
                    if a == cx && b == cz {
                        assert(cells@[cells.len() - 1] == (a, b));
                    } else {
                        assert(before.contains((a, b)));
                    }
                }
            }
            cz = cz + step;
            proof {
                nz = nz + 1;
                assert(cz + radius == nz * step) by (nonlinear_arith)
                    requires
                        cz == cz - step + step,
                        cz - step + radius == (nz - 1) * step,
                ;
            }
        }
        proof {
            assert forall|a: i32|
                on_axis(a as int, radius as int, step as int) && a < cx + step implies a
                <= cx by {
                lemma_axis_gap(a as int, cx as int, nx, radius as int, step as int);
            }
        }
        cx = cx + step;
        proof {
            nx = nx + 1;
            assert(cx + radius == nx * step) by (nonlinear_arith)
                requires
                    cx - step + radius == (nx - 1) * step,
            ;
        }
    }
    cells
}

/// The cells of `cells` are in strictly increasing row-major order.
pub open spec fn row_major_sorted(cells: Seq<(i32, i32)>) -> bool {
    forall|k: int, l: int|
        0 <= k < l < cells.len() ==> row_major_before(#[trigger] cells[k], #[trigger] cells[l])
}

proof fn lemma_sorted_prefix_agrees(a: Seq<(i32, i32)>, b: Seq<(i32, i32)>, k: int)
    requires
        row_major_sorted(a),
        row_major_sorted(b),
        forall|x: (i32, i32)| a.contains(x) <==> b.contains(x),
        0 <= k <= a.len(),
        k <= b.len(),
    ensures
        forall|j: int| 0 <= j < k ==> a[j] == b[j],
    decreases k,
{
    if k > 0 {
        lemma_sorted_prefix_agrees(a, b, k - 1);
        let x = a[k - 1];
        let y = b[k - 1];
        if x != y {
            assert(a.contains(x));
            let m = choose|m: int| 0 <= m < b.len() && b[m] == x;
            assert(b.contains(y));
            let n = choose|n: int| 0 <= n < a.len() && a[n] == y;
            if m < k - 1 {
                assert(row_major_before(a[m], a[k - 1]));
            }
            if n < k - 1 {
                assert(row_major_before(b[n], b[k - 1]));
            }
            assert(row_major_before(b[k - 1], b[m]));
            assert(row_major_before(a[k - 1], a[n]));
        }
    }
}

proof fn lemma_sorted_same_members_equal(a: Seq<(i32, i32)>, b: Seq<(i32, i32)>)
    requires
        row_major_sorted(a),
        row_major_sorted(b),
        forall|x: (i32, i32)| a.contains(x) <==> b.contains(x),
    ensures
        a == b,
{
    if a.len() > b.len() {
        lemma_sorted_prefix_agrees(a, b, b.len() as int);
        let x = a[b.len() as int];
        assert(a.contains(x));
        let m = choose|m: int| 0 <= m < b.len() && b[m] == x;
        assert(row_major_before(a[m], a[b.len() as int]));
    } else if b.len() > a.len() {
        lemma_sorted_prefix_agrees(a, b, a.len() as int);
        let y = b[a.len() as int];
        assert(b.contains(y));
        let n = choose|n: int| 0 <= n < a.len() && a[n] == y;
        assert(row_major_before(b[n], b[a.len() as int]));
    } else {
        lemma_sorted_prefix_agrees(a, b, a.len() as int);
        assert(a =~= b);
    }
}

/// The order of the scan is fixed: for a search radius and a step exactly one
/// sequence of cells is a search plan, so searches with the same parameters
/// evaluate the same cells in the same order.
pub proof fn lemma_search_plan_unique(
    a: Seq<(i32, i32)>,
    b: Seq<(i32, i32)>,
    radius: int,
    step: int,
)
    requires
        is_search_plan(a, radius, step),
        is_search_plan(b, radius, step),
    ensures
        a == b,
{
    assert forall|x: (i32, i32)| a.contains(x) <==> b.contains(x) by {
        if a.contains(x) {
            let k = choose|k: int| 0 <= k < a.len() && a[k] == x;
            assert(on_axis(a[k].0 as int, radius, step));
            assert(b.contains((x.0, x.1)));
        }
        if b.contains(x) {
            let k = choose|k: int| 0 <= k < b.len() && b[k] == x;
            assert(on_axis(b[k].0 as int, radius, step));
            assert(a.contains((x.0, x.1)));
        }
    }
    lemma_sorted_same_members_equal(a, b);
}

} // verus!
