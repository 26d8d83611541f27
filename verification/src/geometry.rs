//! Geometric utilities: UV-to-pixel conversion, bounding boxes, and the
//! ray-casting point-in-polygon test.
//!
//! UV coordinates live in the unit square with a bottom-left origin. They are
//! held in fixed point: a coordinate is an `i64` count of `UV_SCALE`-ths, so
//! `UV_SCALE` itself is `1.0`. All geometry below is exact integer
//! arithmetic; in particular the ray test compares cross-multiplied products
//! instead of dividing.

use vstd::prelude::*;

verus! {

/// Number of fixed-point steps in one UV unit.
pub const UV_SCALE: i64 = 1_000_000;

/// Magnitude bound on the coordinates fed to the point-in-polygon test; keeps
/// every cross-multiplied product well inside `i64`.
pub const COORD_LIMIT: i64 = 2_000_000;

/// A UV coordinate clamped into the unit interval.
pub open spec fn clamp_unit(x: int) -> int {
    if x < 0 {
        0
    } else if x > UV_SCALE {
        UV_SCALE as int
    } else {
        x
    }
}

/// Horizontal pixel of a UV `u` over an image `width` pixels wide: scale,
/// truncate, and clamp to the last column.
pub open spec fn uv_to_px(u: int, width: int) -> int {
    vstd::math::min(clamp_unit(u) * width / (UV_SCALE as int), width - 1)
}

/// Vertical pixel of a UV `v` over an image `height` pixels tall. UV has a
/// bottom-left origin and pixels a top-left origin, so `v` is flipped.
pub open spec fn uv_to_py(v: int, height: int) -> int {
    vstd::math::min((UV_SCALE - clamp_unit(v)) * height / (UV_SCALE as int), height - 1)
}

/// A mapped pixel column always lands inside the image.
pub proof fn lemma_uv_to_px_range(u: int, width: int)
    requires
        width >= 1,
    ensures
        0 <= uv_to_px(u, width) <= width - 1,
{
    let c = clamp_unit(u);
    assert(0 <= c * width) by (nonlinear_arith)
        requires
            0 <= c,
            0 <= width,
    ;
    assert(0 <= c * width / (UV_SCALE as int)) by (nonlinear_arith)
        requires
            0 <= c * width,
    ;
}

/// A mapped pixel row always lands inside the image.
pub proof fn lemma_uv_to_py_range(v: int, height: int)
    requires
        height >= 1,
    ensures
        0 <= uv_to_py(v, height) <= height - 1,
{
    let c = (UV_SCALE as int) - clamp_unit(v);
    assert(0 <= c * height) by (nonlinear_arith)
        requires
            0 <= c,
            0 <= height,
    ;
    assert(0 <= c * height / (UV_SCALE as int)) by (nonlinear_arith)
        requires
            0 <= c * height,
    ;
}

/// Maps each UV point of a polygon to the pixel grid of a `width` x `height`
/// image: v-flipped, truncated, and clamped to `[0, dim-1]`.
pub fn uv_to_pixel_coords(uv_coords: &Vec<(i64, i64)>, width: u32, height: u32) -> (r: Vec<
    (u32, u32),
>)
    requires
        width >= 1,
        height >= 1,
    ensures
        r@.len() == uv_coords@.len(),
        forall|i: int|
            0 <= i < r@.len() ==> #[trigger] r@[i] == (
            uv_to_px(uv_coords@[i].0 as int, width as int) as u32,
            uv_to_py(uv_coords@[i].1 as int, height as int) as u32,
            ),
{
    let mut r: Vec<(u32, u32)> = Vec::new();
    let mut i: usize = 0;
    while i < uv_coords.len()
        invariant
            width >= 1,
            height >= 1,
            i <= uv_coords@.len(),
            r@.len() == i,
            forall|j: int|
                0 <= j < i ==> #[trigger] r@[j] == (
                uv_to_px(uv_coords@[j].0 as int, width as int) as u32,
                uv_to_py(uv_coords@[j].1 as int, height as int) as u32,
                ),
        decreases uv_coords@.len() - i,
    {
        let (u, v) = uv_coords[i];
        let cu: i64 = if u < 0 {
            0
        } else if u > UV_SCALE {
            UV_SCALE
        } else {
            u
        };
        let cv: i64 = if v < 0 {
            0
        } else if v > UV_SCALE {
            UV_SCALE
        } else {
            v
        };
        let cuu: u64 = cu as u64;
        let cvf: u64 = (UV_SCALE - cv) as u64;
        let w64: u64 = width as u64;
        let h64: u64 = height as u64;
        let scale: u64 = UV_SCALE as u64;
        assert(cuu * w64 <= 0x10_0000_0000_0000 && cvf * h64 <= 0x10_0000_0000_0000)
            by (nonlinear_arith)
            requires
                0 <= cuu <= 1_000_000,
                0 <= cvf <= 1_000_000,
                0 < w64 < 0x1_0000_0000,
                0 < h64 < 0x1_0000_0000,
        ;
        let sx: u64 = cuu * w64 / scale;
        let sy: u64 = cvf * h64 / scale;
        let px: u64 = if sx < w64 - 1 {
            sx
        } else {
            w64 - 1
        };
        let py: u64 = if sy < h64 - 1 {
            sy
        } else {
            h64 - 1
        };
        assert(px as int == uv_to_px(u as int, width as int));
        assert(py as int == uv_to_py(v as int, height as int));
        r.push((px as u32, py as u32));
        i = i + 1;
    }
    r
}

/// Minimal axis-aligned box over a point set, as `(min_x, min_y, max_x,
/// max_y)`. An empty input yields the inverted sentinel box `(u32::MAX,
/// u32::MAX, 0, 0)`; callers are expected never to pass an empty set.
pub fn calc_bbox(pixel_coords: &Vec<(u32, u32)>) -> (r: (u32, u32, u32, u32))
    ensures
        forall|i: int|
            #![trigger pixel_coords@[i]]
            0 <= i < pixel_coords@.len() ==> r.0 <= pixel_coords@[i].0 <= r.2 && r.1
                <= pixel_coords@[i].1 <= r.3,
        pixel_coords@.len() > 0 ==> (exists|i: int|
            0 <= i < pixel_coords@.len() && #[trigger] pixel_coords@[i].0 == r.0) && (exists|i: int|
            0 <= i < pixel_coords@.len() && #[trigger] pixel_coords@[i].1 == r.1) && (exists|i: int|
            0 <= i < pixel_coords@.len() && #[trigger] pixel_coords@[i].0 == r.2) && (exists|i: int|
            0 <= i < pixel_coords@.len() && #[trigger] pixel_coords@[i].1 == r.3),
        pixel_coords@.len() == 0 ==> r == (u32::MAX, u32::MAX, 0u32, 0u32),
{
    let mut min_x: u32 = u32::MAX;
    let mut min_y: u32 = u32::MAX;
    let mut max_x: u32 = 0;
    let mut max_y: u32 = 0;
    let mut i: usize = 0;
    while i < pixel_coords.len()
        invariant
            i <= pixel_coords@.len(),
            forall|j: int|
                #![trigger pixel_coords@[j]]
                0 <= j < i ==> min_x <= pixel_coords@[j].0 <= max_x && min_y <= pixel_coords@[j].1
                    <= max_y,
            i > 0 ==> (exists|j: int| 0 <= j < i && #[trigger] pixel_coords@[j].0 == min_x) && (
            exists|j: int| 0 <= j < i && #[trigger] pixel_coords@[j].1 == min_y) && (exists|j: int|
                0 <= j < i && #[trigger] pixel_coords@[j].0 == max_x) && (exists|j: int|
                0 <= j < i && #[trigger] pixel_coords@[j].1 == max_y),
            i == 0 ==> min_x == u32::MAX && min_y == u32::MAX && max_x == 0 && max_y == 0,
        decreases pixel_coords@.len() - i,
    {
        let (x, y) = pixel_coords[i];
        if i == 0 {
            min_x = x;
            min_y = y;
            max_x = x;
            max_y = y;
        } else {
            if x < min_x {
                min_x = x;
            }
            if y < min_y {
                min_y = y;
            }
            if x > max_x {
                max_x = x;
            }
            if y > max_y {
                max_y = y;
            }
        }
        i = i + 1;
    }
    (min_x, min_y, max_x, max_y)
}

/// All coordinates of a polygon bounded by `COORD_LIMIT` in magnitude.
pub open spec fn polygon_bounded(poly: Seq<(i64, i64)>) -> bool {
    forall|i: int|
        0 <= i < poly.len() ==> -COORD_LIMIT <= #[trigger] poly[i].0 <= COORD_LIMIT && -COORD_LIMIT
            <= poly[i].1 <= COORD_LIMIT
}

/// Index of the vertex preceding vertex `k` in a closed polygon of `len`
/// vertices.
pub open spec fn prev_vertex(len: int, k: int) -> int {
    if k == 0 {
        len - 1
    } else {
        k - 1
    }
}

/// Does the horizontal ray from `tp` cross the edge between `pv` and `c`:
/// the comparison `tp.x < (pv.x - c.x) * (tp.y - c.y) / (pv.y - c.y) + c.x`
/// against the edge's x at the test row, stated by cross-multiplication so it
/// stays exact in integers.
pub open spec fn ray_hits_edge(tp: (i64, i64), c: (i64, i64), pv: (i64, i64)) -> bool {
    if pv.1 > c.1 {
        (tp.0 - c.0) * (pv.1 - c.1) < (pv.0 - c.0) * (tp.1 - c.1)
    } else {
        (tp.0 - c.0) * (pv.1 - c.1) > (pv.0 - c.0) * (tp.1 - c.1)
    }
}

/// One edge of the ray-casting pass: the edge straddles the test row and the
/// ray crosses it.
pub open spec fn edge_flips(tp: (i64, i64), c: (i64, i64), pv: (i64, i64)) -> bool {
    ((c.1 > tp.1) != (pv.1 > tp.1)) && ray_hits_edge(tp, c, pv)
}

/// Parity of ray crossings over the first `k` edges of the polygon.
pub open spec fn crossing_parity(tp: (i64, i64), poly: Seq<(i64, i64)>, k: int) -> bool
    decreases k,
{
    if k <= 0 {
        false
    } else {
        crossing_parity(tp, poly, k - 1) != edge_flips(
            tp,
            poly[k - 1],
            poly[prev_vertex(poly.len() as int, k - 1)],
        )
    }
}

/// Odd-even rule over all edges: the point is inside iff a ray from it
/// crosses the boundary an odd number of times. Points exactly on an edge may
/// be classified either way; that is deliberate.
pub open spec fn point_inside_polygon(tp: (i64, i64), poly: Seq<(i64, i64)>) -> bool {
    crossing_parity(tp, poly, poly.len() as int)
}

/// Ray-casting parity test, odd-even rule, over a polygon in the same
/// fixed-point coordinate space as `test_point`.
pub fn is_point_inside_polygon(test_point: (i64, i64), polygon: &Vec<(i64, i64)>) -> (r: bool)
    requires
        polygon@.len() >= 1,
        polygon_bounded(polygon@),
        -COORD_LIMIT <= test_point.0 <= COORD_LIMIT,
        -COORD_LIMIT <= test_point.1 <= COORD_LIMIT,
    ensures
        r == point_inside_polygon(test_point, polygon@),
{
    let mut is_inside = false;
    let mut previous_vertex_index: usize = polygon.len() - 1;
    let mut current_vertex_index: usize = 0;
    while current_vertex_index < polygon.len()
        invariant
            polygon@.len() >= 1,
            polygon_bounded(polygon@),
            -COORD_LIMIT <= test_point.0 <= COORD_LIMIT,
            -COORD_LIMIT <= test_point.1 <= COORD_LIMIT,
            current_vertex_index <= polygon@.len(),
            previous_vertex_index as int == prev_vertex(
                polygon@.len() as int,
                current_vertex_index as int,
            ),
            is_inside == crossing_parity(test_point, polygon@, current_vertex_index as int),
        decreases polygon@.len() - current_vertex_index,
    {
        let (current_x, current_y) = polygon[current_vertex_index];
        let (previous_x, previous_y) = polygon[previous_vertex_index];

        let is_y_between_vertices = (current_y > test_point.1) != (previous_y > test_point.1);
        proof {
            let a = test_point.0 - current_x;
            let b = previous_y - current_y;
            let c = previous_x - current_x;
            let d = test_point.1 - current_y;
            assert(a * b <= 4 * COORD_LIMIT * COORD_LIMIT && a * b >= -4 * COORD_LIMIT * COORD_LIMIT
                && c * d <= 4 * COORD_LIMIT * COORD_LIMIT && c * d >= -4 * COORD_LIMIT
                * COORD_LIMIT) by (nonlinear_arith)
                requires
                    -2 * COORD_LIMIT <= a <= 2 * COORD_LIMIT,
                    -2 * COORD_LIMIT <= b <= 2 * COORD_LIMIT,
                    -2 * COORD_LIMIT <= c <= 2 * COORD_LIMIT,
                    -2 * COORD_LIMIT <= d <= 2 * COORD_LIMIT,
            ;
        }
        let lhs: i64 = (test_point.0 - current_x) * (previous_y - current_y);
        let rhs: i64 = (previous_x - current_x) * (test_point.1 - current_y);
        let does_ray_intersect = if previous_y > current_y {
            lhs < rhs
        } else {
            lhs > rhs
        };

        if is_y_between_vertices && does_ray_intersect {
            is_inside = !is_inside;
        }

        previous_vertex_index = current_vertex_index;
        current_vertex_index = current_vertex_index + 1;
    }
    is_inside
}

} // verus!
