//! The texture fragment model: a polygon-bounded region cropped from a source
//! image, the downsample factor applied to it, and the toplevel bounding
//! regions that clusters of fragments merge into.
//!
//! The downsample factor and the UV polygon are held in fixed point (see
//! `geometry::UV_SCALE`), so every predicate below is exact integer
//! arithmetic.

use vstd::prelude::*;

use crate::geometry::{calc_bbox, uv_to_pixel_coords, uv_to_px, uv_to_py, UV_SCALE};

verus! {

/// Downsample factor in the closed interval `[0, 1]`, in fixed point:
/// `UV_SCALE` stands for `1.0`. A value outside the interval is a
/// construction-time error, never silently clamped, so the raw field stays
/// private behind the validating constructor.
#[derive(Clone, Debug)]
pub struct DownsampleFactor {
    raw: i64,
}

impl DownsampleFactor {
    /// The factor as a count of `UV_SCALE`-ths.
    pub closed spec fn spec_value(&self) -> int {
        self.raw as int
    }

    pub open spec fn wf(&self) -> bool {
        0 <= self.spec_value() <= UV_SCALE
    }

    /// Accepts only factors inside `[0, 1]`; an out-of-range factor must be
    /// rejected by the caller, not clamped here.
    pub fn new(factor: i64) -> (r: Self)
        requires
            0 <= factor <= UV_SCALE,
        ensures
            r.spec_value() == factor,
            r.wf(),
    {
        DownsampleFactor { raw: factor }
    }

    pub fn value(&self) -> (r: i64)
        ensures
            r == self.spec_value(),
    {
        self.raw
    }
}

/// A region cut out of a source image: the pixel box `[origin, origin +
/// (width, height))` within the image at `image_path`, together with the UV
/// polygon of the region re-expressed locally to that box (bottom-left
/// origin) and the downsample factor to apply on cropping.
#[derive(Debug)]
pub struct CroppedTexture {
    pub image_path: String,
    /// Top-left corner of the cropped box inside the original image.
    pub origin: (u32, u32),
    pub width: u32,
    pub height: u32,
    pub downsample_factor: DownsampleFactor,
    /// UV coordinates local to the cropped box (bottom-left origin), in
    /// fixed point; each component lies in `[0, UV_SCALE]`.
    pub cropped_uv_coords: Vec<(i64, i64)>,
}

/// Closed pixel boxes `[x, x+w] x [y, y+h]` intersect, touching edges
/// included.
pub open spec fn boxes_overlap(
    a: ((u32, u32), u32, u32),
    b: ((u32, u32), u32, u32),
) -> bool {
    !(a.0.0 + a.1 < b.0.0 || b.0.0 + b.1 < a.0.0 || a.0.1 + a.2 < b.0.1 || b.0.1 + b.2 < a.0.1)
}

/// Box `a` fully contains box `b`.
pub open spec fn box_contains(
    a: ((u32, u32), u32, u32),
    b: ((u32, u32), u32, u32),
) -> bool {
    a.0.0 <= b.0.0 && a.0.1 <= b.0.1 && a.0.0 + a.1 >= b.0.0 + b.1 && a.0.1 + a.2 >= b.0.1 + b.2
}

impl CroppedTexture {
    pub open spec fn spec_box(&self) -> ((u32, u32), u32, u32) {
        (self.origin, self.width, self.height)
    }

    pub open spec fn wf(&self) -> bool {
        &&& self.width >= 1
        &&& self.height >= 1
        &&& self.origin.0 + self.width <= u32::MAX
        &&& self.origin.1 + self.height <= u32::MAX
        &&& self.downsample_factor.wf()
        &&& self.cropped_uv_coords@.len() >= 3
        &&& forall|i: int|
            0 <= i < self.cropped_uv_coords@.len() ==> 0 <= #[trigger] self.cropped_uv_coords@[i].0
                <= UV_SCALE && 0 <= self.cropped_uv_coords@[i].1 <= UV_SCALE
    }

    /// Same source image and the two pixel boxes intersect (touching edges
    /// count). This conservative box test, not polygon intersection, drives
    /// clustering.
    pub open spec fn spec_overlaps(&self, other: &Self) -> bool {
        self.image_path@ == other.image_path@ && boxes_overlap(self.spec_box(), other.spec_box())
    }

    /// Check if the two textures partially or completely overlap.
    pub fn overlaps(&self, other: &Self) -> (r: bool)
        requires
            self.wf(),
            other.wf(),
        ensures
            r == self.spec_overlaps(other),
    {
        if !(self.image_path == other.image_path) {
            return false;
        }
        let (x1, y1, w1, h1) = (self.origin.0, self.origin.1, self.width, self.height);
        let (x2, y2, w2, h2) = (other.origin.0, other.origin.1, other.width, other.height);

        !(x1 + w1 < x2 || x2 + w2 < x1 || y1 + h1 < y2 || y2 + h2 < y1)
    }

    /// Same source image and `self`'s box fully contains `other`'s box.
    pub open spec fn spec_covers(&self, other: &Self) -> bool {
        self.image_path@ == other.image_path@ && box_contains(self.spec_box(), other.spec_box())
    }

    /// Check if the texture completely covers the other texture; if it does,
    /// return the pixel offset of `other` within `self`.
    pub fn covers(&self, other: &Self) -> (r: Option<(u32, u32)>)
        requires
            self.wf(),
            other.wf(),
        ensures
            r is Some <==> self.spec_covers(other),
            r is Some ==> r->0 == (
                (other.origin.0 - self.origin.0) as u32,
                (other.origin.1 - self.origin.1) as u32,
            ),
    {
        if !(self.image_path == other.image_path) {
            return None;
        }
        let (x1, y1, w1, h1) = (self.origin.0, self.origin.1, self.width, self.height);
        let (x2, y2, w2, h2) = (other.origin.0, other.origin.1, other.width, other.height);

        if x1 <= x2 && y1 <= y2 && x1 + w1 >= x2 + w2 && y1 + h1 >= y2 + h2 {
            Some((x2 - x1, y2 - y1))
        } else {
            None
        }
    }

    /// Builds a fragment from a UV polygon over a `size.0` x `size.1` source
    /// image: maps the polygon to pixel space, takes its bounding box as the
    /// crop, and re-expresses the polygon in UV coordinates local to that box
    /// (origin shifted to zero, vertical axis flipped).
    ///
    /// The polygon must span at least two pixel columns and two pixel rows;
    /// a degenerate polygon has no local coordinate space.
    pub fn new(
        image_path: &str,
        size: (u32, u32),
        uv_coords: &Vec<(i64, i64)>,
        downsample_factor: DownsampleFactor,
    ) -> (r: Self)
        requires
            size.0 >= 1,
            size.1 >= 1,
            uv_coords@.len() >= 3,
            downsample_factor.wf(),
            exists|i: int, j: int|
                0 <= i < uv_coords@.len() && 0 <= j < uv_coords@.len() && uv_to_px(
                    uv_coords@[i].0 as int,
                    size.0 as int,
                ) != uv_to_px(uv_coords@[j].0 as int, size.0 as int),
            exists|i: int, j: int|
                0 <= i < uv_coords@.len() && 0 <= j < uv_coords@.len() && uv_to_py(
                    uv_coords@[i].1 as int,
                    size.1 as int,
                ) != uv_to_py(uv_coords@[j].1 as int, size.1 as int),
        ensures
            r.wf(),
            r.image_path@ == image_path@,
            r.downsample_factor == downsample_factor,
            r.cropped_uv_coords@.len() == uv_coords@.len(),
            // The crop is exactly the pixel bounding box of the mapped polygon.
            forall|i: int|
                0 <= i < uv_coords@.len() ==> r.origin.0 <= #[trigger] uv_to_px(
                    uv_coords@[i].0 as int,
                    size.0 as int,
                ) <= r.origin.0 + r.width,
            forall|i: int|
                0 <= i < uv_coords@.len() ==> r.origin.1 <= #[trigger] uv_to_py(
                    uv_coords@[i].1 as int,
                    size.1 as int,
                ) <= r.origin.1 + r.height,
            exists|i: int|
                0 <= i < uv_coords@.len() && #[trigger] uv_to_px(
                    uv_coords@[i].0 as int,
                    size.0 as int,
                ) == r.origin.0,
            exists|i: int|
                0 <= i < uv_coords@.len() && #[trigger] uv_to_py(
                    uv_coords@[i].1 as int,
                    size.1 as int,
                ) == r.origin.1,
            exists|i: int|
                0 <= i < uv_coords@.len() && #[trigger] uv_to_px(
                    uv_coords@[i].0 as int,
                    size.0 as int,
                ) == r.origin.0 + r.width,
            exists|i: int|
                0 <= i < uv_coords@.len() && #[trigger] uv_to_py(
                    uv_coords@[i].1 as int,
                    size.1 as int,
                ) == r.origin.1 + r.height,
            // The local polygon: origin shifted to zero, scaled by the box,
            // vertical axis flipped to the bottom-left origin convention.
            forall|i: int|
                0 <= i < uv_coords@.len() ==> #[trigger] r.cropped_uv_coords@[i] == (
                local_u(
                    uv_to_px(uv_coords@[i].0 as int, size.0 as int),
                    r.origin.0 as int,
                    r.width as int,
                ) as i64,
                local_v(
                    uv_to_py(uv_coords@[i].1 as int, size.1 as int),
                    r.origin.1 as int,
                    r.height as int,
                ) as i64,
                ),
    {
        let pixel_coords = uv_to_pixel_coords(uv_coords, size.0, size.1);
        proof {
            assert forall|i: int|
                #![trigger pixel_coords@[i]]
                0 <= i < uv_coords@.len() implies pixel_coords@[i].0 as int == uv_to_px(
                uv_coords@[i].0 as int,
                size.0 as int,
            ) && pixel_coords@[i].1 as int == uv_to_py(
                uv_coords@[i].1 as int,
                size.1 as int,
            ) by {
                crate::geometry::lemma_uv_to_px_range(uv_coords@[i].0 as int, size.0 as int);
                crate::geometry::lemma_uv_to_py_range(uv_coords@[i].1 as int, size.1 as int);
            }
        }
        let (min_x, min_y, max_x, max_y) = calc_bbox(&pixel_coords);
        proof {
            let (i, j) = choose|i: int, j: int|
                0 <= i < uv_coords@.len() && 0 <= j < uv_coords@.len() && uv_to_px(
                    uv_coords@[i].0 as int,
                    size.0 as int,
                ) != uv_to_px(uv_coords@[j].0 as int, size.0 as int);
            let (k, l) = choose|k: int, l: int|
                0 <= k < uv_coords@.len() && 0 <= l < uv_coords@.len() && uv_to_py(
                    uv_coords@[k].1 as int,
                    size.1 as int,
                ) != uv_to_py(uv_coords@[l].1 as int, size.1 as int);
            assert(pixel_coords@[i].0 != pixel_coords@[j].0);
            assert(min_x <= pixel_coords@[i].0 <= max_x);
            assert(min_x <= pixel_coords@[j].0 <= max_x);
            assert(min_x < max_x);
            assert(pixel_coords@[k].1 != pixel_coords@[l].1);
            assert(min_y <= pixel_coords@[k].1 <= max_y);
            assert(min_y <= pixel_coords@[l].1 <= max_y);
            assert(min_y < max_y);
        }
        assert(min_x < max_x && min_y < max_y);

        let cropped_width = max_x - min_x;
        let cropped_height = max_y - min_y;

        let mut dest_uv_coords: Vec<(i64, i64)> = Vec::new();
        let mut i: usize = 0;
        while i < pixel_coords.len()
            invariant
                pixel_coords@.len() == uv_coords@.len(),
                i <= pixel_coords@.len(),
                dest_uv_coords@.len() == i,
                cropped_width > 0,
                cropped_height > 0,
                min_x + cropped_width <= u32::MAX,
                min_y + cropped_height <= u32::MAX,
                forall|j: int|
                    #![trigger pixel_coords@[j]]
                    0 <= j < pixel_coords@.len() ==> min_x <= pixel_coords@[j].0 <= min_x
                        + cropped_width && min_y <= pixel_coords@[j].1 <= min_y + cropped_height,
                forall|j: int|
                    #![trigger pixel_coords@[j]]
                    0 <= j < pixel_coords@.len() ==> pixel_coords@[j].0 as int == uv_to_px(
                        uv_coords@[j].0 as int,
                        size.0 as int,
                    ) && pixel_coords@[j].1 as int == uv_to_py(
                        uv_coords@[j].1 as int,
                        size.1 as int,
                    ),
                forall|j: int|
                    0 <= j < i ==> #[trigger] dest_uv_coords@[j] == (
                    local_u(pixel_coords@[j].0 as int, min_x as int, cropped_width as int) as i64,
                    local_v(pixel_coords@[j].1 as int, min_y as int, cropped_height as int) as i64,
                    ) && 0 <= dest_uv_coords@[j].0 <= UV_SCALE && 0 <= dest_uv_coords@[j].1
                        <= UV_SCALE,
            decreases pixel_coords@.len() - i,
        {
            let (x, y) = pixel_coords[i];
            let dx: u64 = (x - min_x) as u64;
            let dy: u64 = (y - min_y) as u64;
            let cw: u64 = cropped_width as u64;
            let ch: u64 = cropped_height as u64;
            let scale: u64 = UV_SCALE as u64;
            assert(dx * scale <= cw * scale && dx * scale <= 0x10_0000_0000_0000 && dy * scale <= ch
                * scale && dy * scale <= 0x10_0000_0000_0000) by (nonlinear_arith)
                requires
                    0 <= dx <= cw < 0x1_0000_0000,
                    0 <= dy <= ch < 0x1_0000_0000,
                    scale == 1_000_000,
            ;
            let su: u64 = dx * scale / cw;
            let sv: u64 = dy * scale / ch;
            assert(su <= scale && sv <= scale) by (nonlinear_arith)
                requires
                    su == dx as int * scale as int / (cw as int),
                    sv == dy as int * scale as int / (ch as int),
                    dx as int * scale as int <= cw as int * scale as int,
                    dy as int * scale as int <= ch as int * scale as int,
                    cw >= 1,
                    ch >= 1,
            ;
            let u_local: i64 = su as i64;
            let v_local: i64 = UV_SCALE - (sv as i64);
            dest_uv_coords.push((u_local, v_local));
            i = i + 1;
        }

        proof {
            assert forall|i: int|
                0 <= i < uv_coords@.len() implies min_x <= #[trigger] uv_to_px(
                uv_coords@[i].0 as int,
                size.0 as int,
            ) <= min_x + cropped_width by {
                assert(min_x <= pixel_coords@[i].0 <= min_x + cropped_width);
            }
            assert forall|i: int|
                0 <= i < uv_coords@.len() implies min_y <= #[trigger] uv_to_py(
                uv_coords@[i].1 as int,
                size.1 as int,
            ) <= min_y + cropped_height by {
                assert(min_y <= pixel_coords@[i].1 <= min_y + cropped_height);
            }
            let a = choose|j: int| 0 <= j < pixel_coords@.len() && #[trigger] pixel_coords@[j].0
                == min_x;
            assert(uv_to_px(uv_coords@[a].0 as int, size.0 as int) == min_x);
            let b = choose|j: int| 0 <= j < pixel_coords@.len() && #[trigger] pixel_coords@[j].1
                == min_y;
            assert(uv_to_py(uv_coords@[b].1 as int, size.1 as int) == min_y);
            let c = choose|j: int| 0 <= j < pixel_coords@.len() && #[trigger] pixel_coords@[j].0
                == max_x;
            assert(uv_to_px(uv_coords@[c].0 as int, size.0 as int) == max_x);
            let d = choose|j: int| 0 <= j < pixel_coords@.len() && #[trigger] pixel_coords@[j].1
                == max_y;
            assert(uv_to_py(uv_coords@[d].1 as int, size.1 as int) == max_y);
        }
        CroppedTexture {
            image_path: image_path.to_string(),
            origin: (min_x, min_y),
            width: cropped_width,
            height: cropped_height,
            downsample_factor,
            cropped_uv_coords: dest_uv_coords,
        }
    }
}

/// Horizontal UV of a pixel column local to a crop box starting at `min_x`
/// and `cw` columns wide.
pub open spec fn local_u(px: int, min_x: int, cw: int) -> int {
    (px - min_x) * (UV_SCALE as int) / cw
}

/// Vertical UV of a pixel row local to a crop box: flipped so the bottom of
/// the box maps to zero.
pub open spec fn local_v(py: int, min_y: int, ch: int) -> int {
    UV_SCALE - (py - min_y) * (UV_SCALE as int) / ch
}

/// The merged bounding region of a cluster: the union of the member boxes
/// within one source image. Carries no polygon of its own.
#[derive(Debug)]
pub struct ToplevelTexture {
    pub image_path: String,
    pub origin: (u32, u32),
    pub width: u32,
    pub height: u32,
}

/// A cluster member's offset and size within its toplevel region's box.
#[derive(Clone, Copy, Debug)]
pub struct ChildTexture {
    /// Pixel offset of the member's box inside the toplevel box.
    pub offset: (u32, u32),
    pub width: u32,
    pub height: u32,
}

impl ToplevelTexture {
    pub open spec fn spec_box(&self) -> ((u32, u32), u32, u32) {
        (self.origin, self.width, self.height)
    }

    pub open spec fn wf(&self) -> bool {
        &&& self.width >= 1
        &&& self.height >= 1
        &&& self.origin.0 + self.width <= u32::MAX
        &&& self.origin.1 + self.height <= u32::MAX
    }

    /// A toplevel region of a single member: that member's own box.
    pub fn new(texture: &CroppedTexture) -> (r: Self)
        requires
            texture.wf(),
        ensures
            r.wf(),
            r.image_path@ == texture.image_path@,
            r.spec_box() == texture.spec_box(),
    {
        ToplevelTexture {
            image_path: texture.image_path.clone(),
            origin: texture.origin,
            width: texture.width,
            height: texture.height,
        }
    }

    /// Grows the region to the union of its box and `other`'s box. The two
    /// must come from the same source image; `None` says they do not.
    pub fn expand(&self, other: &CroppedTexture) -> (r: Option<Self>)
        requires
            self.wf(),
            other.wf(),
        ensures
            r is Some <==> self.image_path@ == other.image_path@,
            r is Some ==> {
                let t = r->0;
                &&& t.wf()
                &&& t.image_path@ == self.image_path@
                &&& t.origin.0 == vstd::math::min(self.origin.0 as int, other.origin.0 as int)
                &&& t.origin.1 == vstd::math::min(self.origin.1 as int, other.origin.1 as int)
                &&& t.origin.0 + t.width == vstd::math::max(
                    self.origin.0 + self.width,
                    other.origin.0 + other.width,
                )
                &&& t.origin.1 + t.height == vstd::math::max(
                    self.origin.1 + self.height,
                    other.origin.1 + other.height,
                )
            },
    {
        if !(self.image_path == other.image_path) {
            return None;
        }
        let min_x = if self.origin.0 <= other.origin.0 {
            self.origin.0
        } else {
            other.origin.0
        };
        let min_y = if self.origin.1 <= other.origin.1 {
            self.origin.1
        } else {
            other.origin.1
        };
        let end_x = if self.origin.0 + self.width >= other.origin.0 + other.width {
            self.origin.0 + self.width
        } else {
            other.origin.0 + other.width
        };
        let end_y = if self.origin.1 + self.height >= other.origin.1 + other.height {
            self.origin.1 + self.height
        } else {
            other.origin.1 + other.height
        };
        Some(
            ToplevelTexture {
                image_path: self.image_path.clone(),
                origin: (min_x, min_y),
                width: end_x - min_x,
                height: end_y - min_y,
            },
        )
    }

    /// Does this region's box fully contain the texture's box, within the
    /// same source image?
    pub open spec fn spec_contains(&self, t: &CroppedTexture) -> bool {
        self.image_path@ == t.image_path@ && box_contains(self.spec_box(), t.spec_box())
    }

    /// Offset and size of a member texture within this toplevel region.
    /// `None` says the member is not contained in the region.
    pub fn get_child(&self, t: &CroppedTexture) -> (r: Option<ChildTexture>)
        requires
            self.wf(),
            t.wf(),
        ensures
            r is Some <==> self.spec_contains(t),
            r is Some ==> r->0 == (ChildTexture {
                offset: ((t.origin.0 - self.origin.0) as u32, (t.origin.1 - self.origin.1) as u32),
                width: t.width,
                height: t.height,
            }),
    {
        if !(self.image_path == t.image_path) {
            return None;
        }
        if self.origin.0 <= t.origin.0 && self.origin.1 <= t.origin.1 && self.origin.0 + self.width
            >= t.origin.0 + t.width && self.origin.1 + self.height >= t.origin.1 + t.height {
            Some(
                ChildTexture {
                    offset: (t.origin.0 - self.origin.0, t.origin.1 - self.origin.1),
                    width: t.width,
                    height: t.height,
                },
            )
        } else {
            None
        }
    }
}

} // verus!
