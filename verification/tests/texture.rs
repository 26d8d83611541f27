use atlas_packer::geometry::UV_SCALE;
use atlas_packer::texture::{CroppedTexture, DownsampleFactor, ToplevelTexture};

const ONE: i64 = UV_SCALE;

fn tex(path: &str, x: u32, y: u32, w: u32, h: u32) -> CroppedTexture {
    CroppedTexture {
        image_path: path.to_string(),
        origin: (x, y),
        width: w,
        height: h,
        downsample_factor: DownsampleFactor::new(ONE),
        cropped_uv_coords: vec![(0, 0), (ONE, 0), (ONE, ONE)],
    }
}

#[test]
fn downsample_factor_value() {
    let f = DownsampleFactor::new(ONE / 2);
    assert_eq!(f.value(), ONE / 2);
    assert_eq!(DownsampleFactor::new(0).value(), 0);
    assert_eq!(DownsampleFactor::new(ONE).value(), ONE);
}

#[test]
fn new_computes_crop_box_and_local_uvs() {
    let uv = vec![(0, 0), (ONE, 0), (ONE, ONE), (0, ONE)];
    let t = CroppedTexture::new("img.png", (100, 100), &uv, DownsampleFactor::new(ONE));
    assert_eq!(t.image_path, "img.png".to_string());
    assert_eq!(t.origin, (0, 0));
    assert_eq!(t.width, 99);
    assert_eq!(t.height, 99);
    // The local polygon spans the full crop box, v-flipped back to the
    // bottom-left convention.
    assert_eq!(t.cropped_uv_coords, vec![(0, 0), (ONE, 0), (ONE, ONE), (0, ONE)]);
}

#[test]
fn new_shifts_origin_of_offcenter_polygon() {
    // A polygon over the upper-right quadrant of a 200 x 200 image.
    let uv = vec![(ONE / 2, ONE / 2), (ONE, ONE / 2), (ONE, ONE), (ONE / 2, ONE)];
    let t = CroppedTexture::new("img.png", (200, 200), &uv, DownsampleFactor::new(ONE));
    // u = 0.5 maps to pixel column 100; v = 1 maps to pixel row 0, v = 0.5 to
    // row 100.
    assert_eq!(t.origin, (100, 0));
    assert_eq!(t.width, 99);
    assert_eq!(t.height, 100);
}

#[test]
fn overlaps_requires_same_source() {
    let a = tex("a.png", 0, 0, 10, 10);
    let b = tex("a.png", 5, 5, 10, 10);
    let c = tex("b.png", 5, 5, 10, 10);
    assert!(a.overlaps(&b));
    assert!(b.overlaps(&a));
    assert!(!a.overlaps(&c));
}

#[test]
fn overlaps_includes_touching_edges() {
    let a = tex("a.png", 0, 0, 10, 10);
    let touching = tex("a.png", 10, 0, 5, 5);
    let apart = tex("a.png", 11, 0, 5, 5);
    assert!(a.overlaps(&touching));
    assert!(!a.overlaps(&apart));
}

#[test]
fn covers_returns_offset() {
    let a = tex("a.png", 0, 0, 10, 10);
    let b = tex("a.png", 2, 3, 4, 5);
    assert_eq!(a.covers(&b), Some((2, 3)));
    assert_eq!(b.covers(&a), None);
    let other = tex("b.png", 2, 3, 4, 5);
    assert_eq!(a.covers(&other), None);
}

#[test]
fn expand_unions_boxes_within_one_source() {
    let a = tex("a.png", 0, 0, 10, 10);
    let b = tex("a.png", 5, 5, 10, 10);
    let top = ToplevelTexture::new(&a);
    let grown = top.expand(&b).unwrap();
    assert_eq!(grown.origin, (0, 0));
    assert_eq!(grown.width, 15);
    assert_eq!(grown.height, 15);
    let foreign = tex("b.png", 0, 0, 1, 1);
    assert!(grown.expand(&foreign).is_none());
}

#[test]
fn get_child_returns_offset_and_size() {
    let a = tex("a.png", 2, 2, 20, 20);
    let top = ToplevelTexture::new(&a);
    let b = tex("a.png", 6, 10, 4, 4);
    let child = top.get_child(&b).unwrap();
    assert_eq!(child.offset, (4, 8));
    assert_eq!(child.width, 4);
    assert_eq!(child.height, 4);
    let outside = tex("a.png", 0, 0, 4, 4);
    assert!(top.get_child(&outside).is_none());
}
