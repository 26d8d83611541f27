use atlas_packer::cluster::create_cluster;
use atlas_packer::geometry::UV_SCALE;
use atlas_packer::texture::{CroppedTexture, DownsampleFactor};

const ONE: i64 = UV_SCALE;

fn tex(path: &str, x: u32, y: u32, w: u32, h: u32) -> CroppedTexture {
    CroppedTexture {
        image_path: path.to_string(),
        origin: (x, y),
        width: w,
        height: h,
        downsample_factor: DownsampleFactor::new(ONE),
        cropped_uv_coords: vec![(0, 0), (ONE, 0), (ONE, ONE)],
    }
}

#[test]
fn identical_boxes_with_different_sources_stay_apart() {
    let textures = vec![tex("a.png", 0, 0, 10, 10), tex("b.png", 0, 0, 10, 10)];
    let clusters = create_cluster(&textures);
    assert_eq!(clusters.len(), 2);
    assert_eq!(clusters[0].children.len(), 1);
    assert_eq!(clusters[1].children.len(), 1);
}

#[test]
fn clustering_is_transitive() {
    // A overlaps B, B overlaps C, but A and C do not touch.
    let a = tex("a.png", 0, 0, 10, 10);
    let b = tex("a.png", 5, 5, 10, 10);
    let c = tex("a.png", 14, 14, 10, 10);
    assert!(a.overlaps(&b));
    assert!(b.overlaps(&c));
    assert!(!a.overlaps(&c));
    let textures = vec![a, b, c];
    let clusters = create_cluster(&textures);
    assert_eq!(clusters.len(), 1);
    assert_eq!(clusters[0].children.len(), 3);
}

#[test]
fn toplevel_is_minimal_bounding_box() {
    let textures = vec![
        tex("a.png", 2, 3, 10, 10),
        tex("a.png", 7, 8, 10, 12),
        tex("a.png", 4, 1, 5, 9),
    ];
    let clusters = create_cluster(&textures);
    assert_eq!(clusters.len(), 1);
    let top = &clusters[0].toplevel_texture;
    assert_eq!(top.image_path, "a.png".to_string());
    // Componentwise minimum of origins, maximum of box ends.
    assert_eq!(top.origin, (2, 1));
    assert_eq!(top.origin.0 + top.width, 17);
    assert_eq!(top.origin.1 + top.height, 20);
    for (idx, child) in &clusters[0].children {
        let t = &textures[*idx];
        assert!(top.origin.0 <= t.origin.0 && top.origin.1 <= t.origin.1);
        assert!(t.origin.0 + t.width <= top.origin.0 + top.width);
        assert!(t.origin.1 + t.height <= top.origin.1 + top.height);
        assert_eq!(child.offset, (t.origin.0 - top.origin.0, t.origin.1 - top.origin.1));
        assert_eq!((child.width, child.height), (t.width, t.height));
    }
}

#[test]
fn singleton_cluster_for_isolated_texture() {
    let textures = vec![tex("a.png", 0, 0, 5, 5), tex("a.png", 100, 100, 5, 5)];
    let clusters = create_cluster(&textures);
    assert_eq!(clusters.len(), 2);
    let mut members: Vec<usize> = clusters
        .iter()
        .flat_map(|c| c.children.iter().map(|(i, _)| *i))
        .collect();
    members.sort();
    assert_eq!(members, vec![0, 1]);
}
