use atlas_packer::geometry::{calc_bbox, is_point_inside_polygon, uv_to_pixel_coords, UV_SCALE};

// One UV unit in fixed point.
const ONE: i64 = UV_SCALE;

#[test]
fn uv_to_pixel_then_bbox_round_trip() {
    // The full unit square over a 100 x 100 image covers pixels (0,0)..(99,99).
    let uv = vec![(0, 0), (ONE, 0), (ONE, ONE), (0, ONE)];
    let px = uv_to_pixel_coords(&uv, 100, 100);
    assert_eq!(px.len(), 4);
    let bbox = calc_bbox(&px);
    assert_eq!(bbox, (0, 0, 99, 99));
}

#[test]
fn uv_to_pixel_flips_v_and_clamps() {
    // (0,0) is the bottom-left of UV space, so it maps to the last pixel row.
    let uv = vec![(0, 0), (ONE / 2, ONE / 2), (2 * ONE, -ONE)];
    let px = uv_to_pixel_coords(&uv, 10, 10);
    assert_eq!(px[0], (0, 9));
    assert_eq!(px[1], (5, 5));
    // Out-of-range UVs clamp into the unit square before scaling.
    assert_eq!(px[2], (9, 9));
}

#[test]
fn bbox_of_single_point() {
    let pts = vec![(7, 3)];
    assert_eq!(calc_bbox(&pts), (7, 3, 7, 3));
}

#[test]
fn bbox_of_empty_set_is_inverted_sentinel() {
    let pts: Vec<(u32, u32)> = Vec::new();
    assert_eq!(calc_bbox(&pts), (u32::MAX, u32::MAX, 0, 0));
}

#[test]
fn point_in_unit_square() {
    let square = vec![(0, 0), (ONE, 0), (ONE, ONE), (0, ONE)];
    assert!(is_point_inside_polygon((ONE / 2, ONE / 2), &square));
    assert!(!is_point_inside_polygon((3 * ONE / 2, ONE / 2), &square));
}

#[test]
fn point_in_triangle() {
    let triangle = vec![(0, 0), (ONE, 0), (0, ONE)];
    assert!(is_point_inside_polygon((ONE / 4, ONE / 4), &triangle));
    assert!(!is_point_inside_polygon((3 * ONE / 4, 3 * ONE / 4), &triangle));
}
