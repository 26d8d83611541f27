//! The rasterizer/cropper: extracts the pixel rectangle of a texture
//! fragment from its source image, classifies every pixel against the
//! fragment's local UV polygon (in parallel), applies the masking policy, and
//! downsamples the result.
//!
//! Masking is a deliberate, togglable policy: with `mask_outside` off — the
//! default behaviour of the pipeline — pixels outside the polygon are kept to
//! avoid hard edges; with it on they become fully transparent.

use vstd::prelude::*;

use crate::geometry::{
    is_point_inside_polygon, point_inside_polygon, polygon_bounded, COORD_LIMIT, UV_SCALE,
};
use crate::texture::CroppedTexture;

verus! {

/// An RGBA image as plain bytes: row-major, four bytes per pixel.
pub struct ImageRgba {
    pub width: u32,
    pub height: u32,
    pub data: Vec<u8>,
}

impl ImageRgba {
    pub open spec fn wf(&self) -> bool {
        self.data@.len() == 4 * self.width * self.height
    }

    /// The RGBA bytes of the pixel at column `x`, row `y`.
    pub open spec fn spec_pixel(&self, x: int, y: int) -> (u8, u8, u8, u8) {
        let base = 4 * (y * self.width + x);
        (self.data@[base], self.data@[base + 1], self.data@[base + 2], self.data@[base + 3])
    }
}

/// The fixed-point UV coordinates of the center of pixel `(px, py)` within a
/// `width` x `height` crop, v-flipped to the bottom-left origin: the sample
/// sits at `(px + 1/2) / width` horizontally and `1 - (py + 1/2) / height`
/// vertically.
pub open spec fn pixel_center_uv(width: int, height: int, px: int, py: int) -> (i64, i64) {
    (
        ((2 * px + 1) * (UV_SCALE as int) / (2 * width)) as i64,
        (UV_SCALE - (2 * py + 1) * (UV_SCALE as int) / (2 * height)) as i64,
    )
}

/// Is the center of the pixel at flat index `k` (row-major) inside the
/// fragment's local UV polygon?
pub open spec fn spec_pixel_covered(tex: CroppedTexture, k: int) -> bool {
    point_inside_polygon(
        pixel_center_uv(tex.width as int, tex.height as int, k % (tex.width as int), k / (
        tex.width as int)),
        tex.cropped_uv_coords@,
    )
}

/// Evaluates the point-in-polygon test at the center of the pixel with flat
/// index `index` in the fragment's crop rectangle.
pub fn pixel_center_inside(tex: &CroppedTexture, index: usize) -> (r: bool)
    requires
        tex.wf(),
        index < tex.width * tex.height,
    ensures
        r == spec_pixel_covered(*tex, index as int),
{
    let w: u64 = tex.width as u64;
    let h: u64 = tex.height as u64;
    let scale: u64 = UV_SCALE as u64;
    let px: u64 = index as u64 % w;
    let py: u64 = index as u64 / w;
    proof {
        assert(py < h) by (nonlinear_arith)
            requires
                py == index as u64 as int / w as int,
                index < w * h,
                w >= 1,
        ;
    }
    assert((2 * px + 1) * scale <= 0x20_0000_0000_0000 && (2 * py + 1) * scale
        <= 0x20_0000_0000_0000) by (nonlinear_arith)
        requires
            px < w <= 0x1_0000_0000,
            py < h <= 0x1_0000_0000,
            scale == 1_000_000,
    ;
    let sx: u64 = (2 * px + 1) * scale / (2 * w);
    let sy: u64 = (2 * py + 1) * scale / (2 * h);
    assert(sx <= scale && sy <= scale) by (nonlinear_arith)
        requires
            sx == (2 * px + 1) as int * scale as int / (2 * w as int),
            sy == (2 * py + 1) as int * scale as int / (2 * h as int),
            2 * px + 1 <= 2 * w,
            2 * py + 1 <= 2 * h,
            w >= 1,
            h >= 1,
            scale >= 1,
    ;
    let cx: i64 = sx as i64;
    let cy: i64 = UV_SCALE - (sy as i64);
    proof {
        assert forall|i: int|
            0 <= i < tex.cropped_uv_coords@.len() implies -COORD_LIMIT <= (
        #[trigger] tex.cropped_uv_coords@[i]).0 <= COORD_LIMIT && -COORD_LIMIT
            <= tex.cropped_uv_coords@[i].1 <= COORD_LIMIT by {}
    }
    is_point_inside_polygon((cx, cy), &tex.cropped_uv_coords)
}

/// Classifies every pixel of the fragment's crop rectangle against the local
/// UV polygon, fanned out over a worker pool by pixel ranges; slot `k` of the
/// result is the verdict for flat pixel index `k`.
///
/// Relies on rayon's parallel iterators: an indexed parallel map collected
/// into a `Vec` yields exactly the elements the mapped function returns, in
/// index order, whatever the worker scheduling; `pixel_center_inside` is the
/// verified function the closure calls.
#[verifier::external_body]
fn classify_pixels_parallel(tex: &CroppedTexture, count: usize) -> (r: Vec<bool>)
    requires
        tex.wf(),
        count == tex.width * tex.height,
    ensures
        r@.len() == count,
        forall|k: int| 0 <= k < count ==> #[trigger] r@[k] == spec_pixel_covered(*tex, k),
{
    rayon::iter::ParallelIterator::collect::<Vec<bool>>(
        rayon::iter::ParallelIterator::map(
            rayon::iter::IntoParallelIterator::into_par_iter(0..count),
            |k: usize| pixel_center_inside(tex, k),
        ),
    )
}

/// What `image::imageops::resize` with the triangle filter computes: a
/// function of the input pixels and the two dimensions alone.
pub uninterp spec fn triangle_resize(data: Seq<u8>, w: int, h: int, nw: int, nh: int) -> Seq<u8>;

/// Downsamples an RGBA buffer to `nwidth` x `nheight` with a smooth
/// (triangle) filter.
///
/// Relies on `image::imageops::resize`: it returns a buffer of exactly the
/// requested dimensions (four bytes per pixel), computed from the input
/// pixels alone; `ImageBuffer::from_raw` accepts a buffer of exactly
/// `4 * width * height` bytes and `into_raw` hands the bytes back.
#[verifier::external_body]
fn resize_triangle(img: &ImageRgba, nwidth: u32, nheight: u32) -> (r: ImageRgba)
    requires
        img.wf(),
        img.width >= 1,
        img.height >= 1,
        nwidth >= 1,
        nheight >= 1,
        4 * nwidth * nheight <= usize::MAX,
    ensures
        r.width == nwidth,
        r.height == nheight,
        r.wf(),
        r.data@ == triangle_resize(
            img.data@,
            img.width as int,
            img.height as int,
            nwidth as int,
            nheight as int,
        ),
{
    let buf: image::ImageBuffer<image::Rgba<u8>, Vec<u8>> = image::ImageBuffer::from_raw(
        img.width,
        img.height,
        img.data.clone(),
    ).unwrap();
    let resized = image::imageops::resize(
        &buf,
        nwidth,
        nheight,
        image::imageops::FilterType::Triangle,
    );
    ImageRgba { width: nwidth, height: nheight, data: resized.into_raw() }
}

/// Copies the pixel rectangle `[origin, origin + (w, h))` out of an image.
fn extract_rect(image: &ImageRgba, ox: u32, oy: u32, w: u32, h: u32) -> (r: ImageRgba)
    requires
        image.wf(),
        ox + w <= image.width,
        oy + h <= image.height,
    ensures
        r.wf(),
        r.width == w,
        r.height == h,
        forall|x: int, y: int|
            0 <= x < w && 0 <= y < h ==> #[trigger] r.spec_pixel(x, y) == image.spec_pixel(
                ox + x,
                oy + y,
            ),
{
    let src_len = image.data.len();
    let mut data: Vec<u8> = Vec::new();
    let mut y: u32 = 0;
    while y < h
        invariant
            image.wf(),
            src_len == image.data@.len(),
            ox + w <= image.width,
            oy + h <= image.height,
            y <= h,
            data@.len() == 4 * (y * w),
            forall|x2: int, y2: int|
                0 <= x2 < w && 0 <= y2 < y ==> pixel_copied(data@, image, ox as int, oy as int, x2, y2, w as int),
        decreases h - y,
    {
        let mut x: u32 = 0;
        while x < w
            invariant
                image.wf(),
                src_len == image.data@.len(),
                ox + w <= image.width,
                oy + h <= image.height,
                y < h,
                x <= w,
                data@.len() == 4 * (y * w) + 4 * x,
                forall|x2: int, y2: int|
                    0 <= x2 < w && 0 <= y2 < y ==> pixel_copied(data@, image, ox as int, oy as int, x2, y2, w as int),
                forall|x2: int|
                    0 <= x2 < x ==> pixel_copied(data@, image, ox as int, oy as int, x2, y as int, w as int),
            decreases w - x,
        {
            proof {
                assert((oy + y) * image.width + (ox + x) < image.width * image.height && 4 * ((oy
                    + y) * image.width + (ox + x)) + 4 <= 4 * (image.width * image.height))
                    by (nonlinear_arith)
                    requires
                        oy + y < image.height,
                        ox + x < image.width,
                        image.width >= 1,
                ;
                assert(4 * (image.width * image.height) == 4 * image.width * image.height)
                    by (nonlinear_arith);
                assert(y * w + x + 1 <= h * w && 4 * (y * w) + 4 * x + 4 <= 4 * (h * w))
                    by (nonlinear_arith)
                    requires
                        y < h,
                        x < w,
                ;
            }
            let si: usize = 4 * ((oy + y) as usize * image.width as usize + (ox + x) as usize);
            let ghost data0 = data@;
            let b0 = image.data[si];
            let b1 = image.data[si + 1];
            let b2 = image.data[si + 2];
            let b3 = image.data[si + 3];
            data.push(b0);
            data.push(b1);
            data.push(b2);
            data.push(b3);
            proof {
                assert(pixel_copied(data@, image, ox as int, oy as int, x as int, y as int, w as int));
                assert forall|x2: int, y2: int|
                    0 <= x2 < w && 0 <= y2 < y implies pixel_copied(data@, image, ox as int, oy as int, x2, y2, w as int) by {
                    lemma_pixel_copied_extend(data0, data@, image, ox as int, oy as int, x2, y2, w as int);
                }
                assert forall|x2: int|
                    0 <= x2 < x implies pixel_copied(data@, image, ox as int, oy as int, x2, y as int, w as int) by {
                    lemma_pixel_copied_extend(data0, data@, image, ox as int, oy as int, x2, y as int, w as int);
                }
            }
            x = x + 1;
        }
        proof {
            assert(4 * ((y + 1) * w) == 4 * (y * w) + 4 * w) by (nonlinear_arith);
        }
        y = y + 1;
    }
    proof {
        assert(4 * (h * w) == 4 * w * h) by (nonlinear_arith);
    }
    let r = ImageRgba { width: w, height: h, data };
    proof {
        assert forall|x: int, y2: int|
            0 <= x < w && 0 <= y2 < h implies #[trigger] r.spec_pixel(x, y2) == image.spec_pixel(
            ox + x,
            oy + y2,
        ) by {
            assert(pixel_copied(r.data@, image, ox as int, oy as int, x, y2, w as int));
        }
    }
    r
}

/// The four bytes of out-pixel `(x, y)` match the source pixel shifted by
/// the crop origin.
pub open spec fn pixel_copied(
    out: Seq<u8>,
    image: &ImageRgba,
    ox: int,
    oy: int,
    x: int,
    y: int,
    w: int,
) -> bool {
    let ob = 4 * (y * w + x);
    let sb = 4 * ((oy + y) * image.width + (ox + x));
    &&& 0 <= ob && ob + 4 <= out.len()
    &&& out[ob] == image.data@[sb]
    &&& out[ob + 1] == image.data@[sb + 1]
    &&& out[ob + 2] == image.data@[sb + 2]
    &&& out[ob + 3] == image.data@[sb + 3]
}

/// Appending bytes never disturbs pixels already copied.
proof fn lemma_pixel_copied_extend(
    before: Seq<u8>,
    after: Seq<u8>,
    image: &ImageRgba,
    ox: int,
    oy: int,
    x: int,
    y: int,
    w: int,
)
    requires
        pixel_copied(before, image, ox, oy, x, y, w),
        after.len() >= before.len(),
        forall|k: int| 0 <= k < before.len() ==> #[trigger] after[k] == before[k],
    ensures
        pixel_copied(after, image, ox, oy, x, y, w),
{
}


/// Scaled dimension after downsampling by `factor` (fixed point), guarded
/// against a zero-sized output for very small factors.
pub open spec fn scaled_dim(dim: u32, factor: int) -> int {
    vstd::math::max(1, dim * factor / (UV_SCALE as int))
}

/// What the pixel at `(x, y)` of the cropped (not yet downsampled) output
/// holds: the source pixel under the crop origin, unless masking is on and
/// the pixel center lies outside the fragment's polygon — then transparent.
pub open spec fn masked_pixel(
    tex: CroppedTexture,
    src: &ImageRgba,
    x: int,
    y: int,
    mask_outside: bool,
) -> (u8, u8, u8, u8) {
    if !mask_outside || spec_pixel_covered(tex, y * tex.width + x) {
        src.spec_pixel(tex.origin.0 + x, tex.origin.1 + y)
    } else {
        (0u8, 0u8, 0u8, 0u8)
    }
}

/// The full byte sequence of the cropped, policy-masked (not yet
/// downsampled) output: four bytes per pixel, row-major over the fragment's
/// crop rectangle, each pixel as `masked_pixel` gives it.
pub open spec fn masked_data(tex: CroppedTexture, src: &ImageRgba, mask_outside: bool) -> Seq<u8> {
    Seq::new(
        (4 * tex.width * tex.height) as nat,
        |b: int|
            {
                let p = masked_pixel(
                    tex,
                    src,
                    (b / 4) % (tex.width as int),
                    (b / 4) / (tex.width as int),
                    mask_outside,
                );
                if b % 4 == 0 {
                    p.0
                } else if b % 4 == 1 {
                    p.1
                } else if b % 4 == 2 {
                    p.2
                } else {
                    p.3
                }
            },
    )
}

impl CroppedTexture {
    /// Extracts this fragment's pixel rectangle from its source image,
    /// classifies every pixel center against the local UV polygon across a
    /// worker pool, applies the masking policy, and downsamples the result by
    /// the fragment's factor with a smooth (triangle) filter. A factor of one
    /// leaves the pixels untouched.
    pub fn crop(&self, image: &ImageRgba, mask_outside: bool) -> (r: ImageRgba)
        requires
            self.wf(),
            image.wf(),
            self.origin.0 + self.width <= image.width,
            self.origin.1 + self.height <= image.height,
        ensures
            r.wf(),
            r.width == scaled_dim(self.width, self.downsample_factor.spec_value()),
            r.height == scaled_dim(self.height, self.downsample_factor.spec_value()),
            self.downsample_factor.spec_value() == UV_SCALE ==> forall|x: int, y: int|
                0 <= x < self.width && 0 <= y < self.height ==> #[trigger] r.spec_pixel(x, y)
                    == masked_pixel(*self, image, x, y, mask_outside),
            // The output is a pure function of the source pixels and the
            // fragment: the masked crop bytes, downsampled where the factor
            // asks for it.
            r.data@ == (if self.downsample_factor.spec_value() == UV_SCALE {
                masked_data(*self, image, mask_outside)
            } else {
                triangle_resize(
                    masked_data(*self, image, mask_outside),
                    self.width as int,
                    self.height as int,
                    scaled_dim(self.width, self.downsample_factor.spec_value()),
                    scaled_dim(self.height, self.downsample_factor.spec_value()),
                )
            }),
    {
        let extracted = extract_rect(image, self.origin.0, self.origin.1, self.width, self.height);
        let src_len = image.data.len();
        proof {
            assert(self.width * self.height <= image.width * image.height && 4 * (self.width
                * self.height) <= 4 * image.width * image.height && 4 * (image.width
                * image.height) == 4 * image.width * image.height) by (nonlinear_arith)
                requires
                    0 < self.width <= image.width,
                    0 < self.height <= image.height,
            ;
        }
        let count: usize = self.width as usize * self.height as usize;
        let mask = classify_pixels_parallel(self, count);
        let elen = extracted.data.len();
        proof {
            assert(4 * (self.width * self.height) == 4 * self.width * self.height)
                by (nonlinear_arith);
        }

        let mut out: Vec<u8> = Vec::new();
        let mut k: usize = 0;
        while k < count
            invariant
                count == self.width * self.height,
                extracted.wf(),
                extracted.width == self.width,
                extracted.height == self.height,
                4 * count == extracted.data@.len(),
                elen == extracted.data@.len(),
                mask@.len() == count,
                forall|j: int| 0 <= j < count ==> #[trigger] mask@[j] == spec_pixel_covered(*self, j),
                k <= count,
                out@.len() == 4 * k,
                forall|b: int|
                    0 <= b < out@.len() ==> #[trigger] out@[b] == (if !mask_outside || mask@[b / 4] {
                        extracted.data@[b]
                    } else {
                        0u8
                    }),
            decreases count - k,
        {
            let keep = if mask_outside {
                mask[k]
            } else {
                true
            };
            if keep {
                let b0 = extracted.data[4 * k];
                let b1 = extracted.data[4 * k + 1];
                let b2 = extracted.data[4 * k + 2];
                let b3 = extracted.data[4 * k + 3];
                out.push(b0);
                out.push(b1);
                out.push(b2);
                out.push(b3);
            } else {
                out.push(0);
                out.push(0);
                out.push(0);
                out.push(0);
            }
            proof {
                assert forall|b: int|
                    0 <= b < out@.len() implies #[trigger] out@[b] == (if !mask_outside || mask@[b
                    / 4] {
                    extracted.data@[b]
                } else {
                    0u8
                }) by {
                    if b >= 4 * k {
                        assert(b / 4 == k);
                    }
                }
            }
            k = k + 1;
        }
        proof {
            assert(4 * (self.height * self.width) == 4 * self.width * self.height)
                by (nonlinear_arith);
        }
        let clipped = ImageRgba { width: self.width, height: self.height, data: out };
        proof {
            let md = masked_data(*self, image, mask_outside);
            assert(md.len() == 4 * self.width * self.height);
            assert forall|b: int| 0 <= b < clipped.data@.len() implies clipped.data@[b] == md[b] by {
                let j = b / 4;
                let d = b % 4;
                assert(0 <= j < count && b == 4 * j + d && 0 <= d < 4);
                let w = self.width as int;
                let x = j % w;
                let y = j / w;
                assert(0 <= x < w && 0 <= y < self.height && y * w + x == j) by (nonlinear_arith)
                    requires
                        x == j % w,
                        y == j / w,
                        0 <= j < w * self.height,
                        w == self.width >= 1,
                ;
                assert(clipped.data@[b] == (if !mask_outside || mask@[j] {
                    extracted.data@[b]
                } else {
                    0u8
                }));
                assert(mask@[j] == spec_pixel_covered(*self, j));
                assert(extracted.spec_pixel(x, y) == image.spec_pixel(
                    self.origin.0 + x,
                    self.origin.1 + y,
                ));
                assert(4 * (y * extracted.width + x) == 4 * j);
            }
            assert(clipped.data@ =~= md);
        }

        let f: i64 = self.downsample_factor.value();
        if f == UV_SCALE {
            proof {
                assert(self.width * (UV_SCALE as int) / (UV_SCALE as int) == self.width
                    && self.height * (UV_SCALE as int) / (UV_SCALE as int) == self.height)
                    by (nonlinear_arith)
                    requires
                        UV_SCALE == 1_000_000i64,
                ;
                assert forall|x: int, y: int|
                    0 <= x < self.width && 0 <= y < self.height implies #[trigger] clipped.spec_pixel(
                    x,
                    y,
                ) == masked_pixel(*self, image, x, y, mask_outside) by {
                    assert(0 <= y * self.width + x < self.width * self.height)
                        by (nonlinear_arith)
                        requires
                            0 <= x < self.width,
                            0 <= y < self.height,
                    ;
                    let j = y * self.width + x;
                    assert((4 * j) / 4 == j && (4 * j + 1) / 4 == j && (4 * j + 2) / 4 == j && (4
                        * j + 3) / 4 == j);
                    assert(clipped.data@[4 * j] == (if !mask_outside || mask@[j] {
                        extracted.data@[4 * j]
                    } else {
                        0u8
                    }));
                    assert(clipped.data@[4 * j + 1] == (if !mask_outside || mask@[j] {
                        extracted.data@[4 * j + 1]
                    } else {
                        0u8
                    }));
                    assert(clipped.data@[4 * j + 2] == (if !mask_outside || mask@[j] {
                        extracted.data@[4 * j + 2]
                    } else {
                        0u8
                    }));
                    assert(clipped.data@[4 * j + 3] == (if !mask_outside || mask@[j] {
                        extracted.data@[4 * j + 3]
                    } else {
                        0u8
                    }));
                    assert(extracted.spec_pixel(x, y) == image.spec_pixel(
                        self.origin.0 + x,
                        self.origin.1 + y,
                    ));
                }
            }
            return clipped;
        }

        let fu: u64 = f as u64;
        let w64: u64 = self.width as u64;
        let h64: u64 = self.height as u64;
        let scale: u64 = UV_SCALE as u64;
        assert(w64 * fu <= 0x10_0000_0000_0000 && h64 * fu <= 0x10_0000_0000_0000 && w64 as int
            * fu as int / (scale as int) <= w64 && h64 as int * fu as int / (scale as int)
            <= h64) by (nonlinear_arith)
            requires
                0 < w64 < 0x1_0000_0000,
                0 < h64 < 0x1_0000_0000,
                0 <= fu <= scale,
                scale == 1_000_000,
        ;
        let sw: u64 = w64 * fu / scale;
        let sh: u64 = h64 * fu / scale;
        let nw: u32 = if sw == 0 {
            1
        } else {
            sw as u32
        };
        let nh: u32 = if sh == 0 {
            1
        } else {
            sh as u32
        };
        proof {
            assert(nw * nh <= self.width * self.height && 4 * (nw * nh) == 4 * nw * nh && 4 * (
            self.width * self.height) == 4 * self.width * self.height) by (nonlinear_arith)
                requires
                    0 < nw <= self.width,
                    0 < nh <= self.height,
            ;
        }
        resize_triangle(&clipped, nw, nh)
    }
}

} // verus!
