use atlas_packer::geometry::UV_SCALE;
use atlas_packer::raster::ImageRgba;
use atlas_packer::texture::{CroppedTexture, DownsampleFactor};

const ONE: i64 = UV_SCALE;

fn blank_image(width: u32, height: u32) -> ImageRgba {
    ImageRgba { width, height, data: vec![0u8; 4 * width as usize * height as usize] }
}

fn tex(x: u32, y: u32, w: u32, h: u32, factor: i64, polygon: Vec<(i64, i64)>) -> CroppedTexture {
    CroppedTexture {
        image_path: "img.png".to_string(),
        origin: (x, y),
        width: w,
        height: h,
        downsample_factor: DownsampleFactor::new(factor),
        cropped_uv_coords: polygon,
    }
}

fn unit_square() -> Vec<(i64, i64)> {
    vec![(0, 0), (ONE, 0), (ONE, ONE), (0, ONE)]
}

#[test]
fn downsampling_by_half_halves_both_axes() {
    let image = blank_image(100, 80);
    let t = tex(0, 0, 100, 80, ONE / 2, unit_square());
    let out = t.crop(&image, false);
    assert_eq!(out.width, 50);
    assert_eq!(out.height, 40);
    assert_eq!(out.data.len(), 4 * 50 * 40);
}

#[test]
fn factor_one_keeps_pixels_untouched() {
    // A 2 x 1 source; the crop takes the right pixel only.
    let image = ImageRgba { width: 2, height: 1, data: vec![10, 11, 12, 13, 20, 21, 22, 23] };
    let t = tex(1, 0, 1, 1, ONE, unit_square());
    let out = t.crop(&image, false);
    assert_eq!(out.width, 1);
    assert_eq!(out.height, 1);
    assert_eq!(out.data, vec![20, 21, 22, 23]);
}

#[test]
fn masking_clears_pixels_outside_the_polygon() {
    // The 1 x 1 crop's sampled center lands at the far right of UV space,
    // well outside a small triangle in the bottom-left corner.
    let image = ImageRgba { width: 1, height: 1, data: vec![1, 2, 3, 4] };
    let corner = vec![(0, 0), (ONE / 5, 0), (0, ONE / 5)];
    let masked = tex(0, 0, 1, 1, ONE, corner.clone()).crop(&image, true);
    assert_eq!(masked.data, vec![0, 0, 0, 0]);
    // With masking off — the pipeline's default — the pixel survives.
    let kept = tex(0, 0, 1, 1, ONE, corner).crop(&image, false);
    assert_eq!(kept.data, vec![1, 2, 3, 4]);
}

#[test]
fn tiny_factor_is_guarded_to_one_pixel() {
    let image = blank_image(10, 10);
    let t = tex(0, 0, 10, 10, 1, unit_square());
    let out = t.crop(&image, false);
    assert_eq!(out.width, 1);
    assert_eq!(out.height, 1);
}
