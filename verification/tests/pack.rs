use atlas_packer::geometry::UV_SCALE;
use atlas_packer::pack::AtlasPacker;
use atlas_packer::place::RowPlacer;
use atlas_packer::texture::{CroppedTexture, DownsampleFactor};

const ONE: i64 = UV_SCALE;

fn tex(path: &str, x: u32, y: u32, w: u32, h: u32) -> CroppedTexture {
    CroppedTexture {
        image_path: path.to_string(),
        origin: (x, y),
        width: w,
        height: h,
        downsample_factor: DownsampleFactor::new(ONE),
        cropped_uv_coords: vec![(0, 0), (ONE, 0), (ONE, ONE)],
    }
}

fn overlap(a: &atlas_packer::place::PlacedTextureGeometry, b: &atlas_packer::place::PlacedTextureGeometry) -> bool {
    !(a.origin.0 + a.width <= b.origin.0 || b.origin.0 + b.width <= a.origin.0
        || a.origin.1 + a.height <= b.origin.1 || b.origin.1 + b.height <= a.origin.1)
}

#[test]
fn every_added_id_gets_exactly_one_placement() {
    let mut packer = AtlasPacker::default();
    packer.add_texture("t0".to_string(), tex("a.png", 0, 0, 10, 10));
    packer.add_texture("t1".to_string(), tex("a.png", 5, 5, 10, 10));
    packer.add_texture("t2".to_string(), tex("b.png", 0, 0, 10, 10));
    let provider = packer.pack(RowPlacer::new(1000, 1000)).unwrap();

    assert_eq!(provider.placements.len(), 3);
    for id in ["t0", "t1", "t2"] {
        assert!(provider.get_texture_info(&id.to_string()).is_some());
    }
    assert!(provider.get_texture_info(&"missing".to_string()).is_none());

    // No two placements on the same page overlap.
    for atlas in &provider.atlases {
        for i in 0..atlas.len() {
            for j in (i + 1)..atlas.len() {
                assert!(!overlap(&atlas[i], &atlas[j]));
            }
        }
    }
}

#[test]
fn add_texture_replaces_existing_id() {
    let mut packer = AtlasPacker::default();
    packer.add_texture("t0".to_string(), tex("a.png", 0, 0, 10, 10));
    packer.add_texture("t0".to_string(), tex("a.png", 3, 3, 7, 7));
    assert_eq!(packer.texture_ids.len(), 1);
    assert_eq!(packer.textures.len(), 1);
    assert_eq!(packer.textures[0].origin, (3, 3));
}

#[test]
fn full_page_opens_a_new_one() {
    let mut packer = AtlasPacker::default();
    packer.add_texture("t0".to_string(), tex("a.png", 0, 0, 15, 15));
    packer.add_texture("t1".to_string(), tex("b.png", 0, 0, 15, 15));
    // Two 15-wide regions cannot share one 20-wide row.
    let provider = packer.pack(RowPlacer::new(20, 20)).unwrap();
    assert_eq!(provider.atlases.len(), 2);
    assert_eq!(provider.atlases[0].len(), 1);
    assert_eq!(provider.atlases[1].len(), 1);
    // Page ids follow finalization order.
    assert_eq!(provider.atlases[0][0].atlas_id, 0);
    assert_eq!(provider.atlases[1][0].atlas_id, 1);
}

#[test]
fn oversized_region_is_a_fatal_capacity_error() {
    let mut packer = AtlasPacker::default();
    packer.add_texture("t0".to_string(), tex("a.png", 0, 0, 2000, 10));
    let err = match packer.pack(RowPlacer::new(1000, 1000)) {
        Ok(_) => panic!("an oversized region must not pack"),
        Err(e) => e,
    };
    assert_eq!(err.width, 2000);
    assert_eq!(err.height, 10);
}

#[test]
fn end_to_end_two_clusters_one_page() {
    // Three pairwise-overlapping fragments of one image, plus one fragment of
    // another image with an identical box.
    let mut packer = AtlasPacker::default();
    packer.add_texture("t0".to_string(), tex("tex.png", 0, 0, 10, 10));
    packer.add_texture("t1".to_string(), tex("tex.png", 5, 5, 10, 10));
    packer.add_texture("t2".to_string(), tex("tex.png", 8, 0, 10, 10));
    packer.add_texture("t3".to_string(), tex("other.png", 0, 0, 10, 10));
    let provider = packer.pack(RowPlacer::new(1_000_000, 1_000_000)).unwrap();

    assert_eq!(provider.clusters.len(), 2);
    let mut sizes: Vec<usize> = provider.clusters.iter().map(|c| c.children.len()).collect();
    sizes.sort();
    assert_eq!(sizes, vec![1, 3]);
    // A placement strategy with effectively unlimited capacity yields one page.
    assert_eq!(provider.atlases.len(), 1);
    assert_eq!(provider.atlases[0].len(), 2);
    for id in ["t0", "t1", "t2", "t3"] {
        assert!(provider.get_texture_info(&id.to_string()).is_some());
    }
}

#[test]
fn child_placements_follow_toplevel_position() {
    let mut packer = AtlasPacker::default();
    packer.add_texture("t0".to_string(), tex("a.png", 2, 3, 10, 10));
    packer.add_texture("t1".to_string(), tex("a.png", 7, 8, 10, 10));
    let provider = packer.pack(RowPlacer::new(1000, 1000)).unwrap();
    // The toplevel box is (2,3)..(17,18); the row placer puts it at (0,0),
    // so each child sits at its offset within the toplevel.
    let p0 = provider.get_texture_info(&"t0".to_string()).unwrap();
    let p1 = provider.get_texture_info(&"t1".to_string()).unwrap();
    assert_eq!(p0.origin, (0, 0));
    assert_eq!((p0.width, p0.height), (10, 10));
    assert_eq!(p1.origin, (5, 5));
    assert_eq!((p1.width, p1.height), (10, 10));
    assert_eq!(p0.atlas_id, 0);
    assert_eq!(p1.atlas_id, 0);
}
