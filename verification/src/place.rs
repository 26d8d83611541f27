//! The pluggable placement strategy: the packer drives any bin-packing
//! heuristic through this trait. The trait's contracts are what the packer's
//! own guarantees rest on: a strategy places regions inside the page, never
//! overlapping an earlier placement on the same page, and an empty page
//! accepts anything that fits the page at all.
//!
//! `RowPlacer` is one simple verified strategy: regions side by side in a
//! single row.

use vstd::prelude::*;

use crate::texture::{ChildTexture, ToplevelTexture};

verus! {

/// A toplevel region's rectangle committed to an atlas page.
#[derive(Clone, Copy, Debug)]
pub struct PlacedTextureGeometry {
    pub cluster_id: usize,
    pub atlas_id: usize,
    /// Top-left corner on the page.
    pub origin: (u32, u32),
    pub width: u32,
    pub height: u32,
}

/// The final placement record of one texture fragment: its page and its
/// rectangle on that page.
#[derive(Clone, Copy, Debug)]
pub struct PlacedTextureInfo {
    pub atlas_id: usize,
    /// Top-left corner on the page.
    pub origin: (u32, u32),
    pub width: u32,
    pub height: u32,
}

/// The two rectangles do not overlap (sharing an edge is allowed).
pub open spec fn rects_disjoint(a: PlacedTextureGeometry, b: PlacedTextureGeometry) -> bool {
    ||| a.origin.0 + a.width <= b.origin.0
    ||| b.origin.0 + b.width <= a.origin.0
    ||| a.origin.1 + a.height <= b.origin.1
    ||| b.origin.1 + b.height <= a.origin.1
}

/// The rectangle lies inside a `pw` x `ph` page.
pub open spec fn within_page(g: PlacedTextureGeometry, pw: u32, ph: u32) -> bool {
    g.origin.0 + g.width <= pw && g.origin.1 + g.height <= ph
}

/// The child's box lies inside a toplevel region of the given size.
pub open spec fn child_in_bounds(child: ChildTexture, width: u32, height: u32) -> bool {
    child.offset.0 + child.width <= width && child.offset.1 + child.height <= height
}

/// The placement record a child gets when its toplevel region lands at
/// `geom`: the toplevel's position shifted by the child's offset.
pub open spec fn child_record(geom: PlacedTextureGeometry, child: ChildTexture) -> PlacedTextureInfo {
    PlacedTextureInfo {
        atlas_id: geom.atlas_id,
        origin: (
            (geom.origin.0 + child.offset.0) as u32,
            (geom.origin.1 + child.offset.1) as u32,
        ),
        width: child.width,
        height: child.height,
    }
}

/// A bin-packing policy over one atlas page at a time.
///
/// `placed()` is the strategy's abstract state: the rectangles committed to
/// the current page since the last reset. `can_place` must be a pure query;
/// `place_texture` must not be called for a region that fails it; and once
/// the page is reset, any region no larger than a full page must be
/// accepted — a region that fails even then is a capacity error the caller
/// must treat as fatal.
pub trait TexturePlacer: Sized {
    /// The strategy's internal consistency; established by its constructor,
    /// kept by every operation.
    spec fn inv(&self) -> bool;

    /// Page width; fixed for the strategy's lifetime.
    spec fn page_width(&self) -> u32;

    /// Page height; fixed for the strategy's lifetime.
    spec fn page_height(&self) -> u32;

    /// Rectangles committed to the current page since the last reset.
    spec fn placed(&self) -> Seq<PlacedTextureGeometry>;

    /// What `can_place` answers: does a `width` x `height` region fit the
    /// current page in the strategy's current state?
    spec fn can_place_spec(&self, width: u32, height: u32) -> bool;

    /// Pure query: does the region fit the current page right now?
    fn can_place(&self, toplevel: &ToplevelTexture) -> (r: bool)
        requires
            self.inv(),
            toplevel.wf(),
        ensures
            r == self.can_place_spec(toplevel.width, toplevel.height),
    ;

    /// On an empty page, anything no larger than the page itself fits. This
    /// is the invariant the packer's fatal-capacity check relies on.
    proof fn empty_page_accepts(&self, width: u32, height: u32)
        requires
            self.inv(),
            self.placed().len() == 0,
        ensures
            1 <= width <= self.page_width() && 1 <= height <= self.page_height()
                ==> self.can_place_spec(width, height),
    ;

    /// Commits the region to the current page and returns its rectangle,
    /// plus one placement record per child, each the toplevel's rectangle
    /// shifted by the child's offset. The new rectangle lies inside the
    /// page and is disjoint from everything placed since the last reset.
    fn place_texture(
        &mut self,
        toplevel: &ToplevelTexture,
        children: &Vec<(usize, ChildTexture)>,
        cluster_id: usize,
        atlas_id: usize,
    ) -> (r: (PlacedTextureGeometry, Vec<PlacedTextureInfo>))
        requires
            old(self).inv(),
            toplevel.wf(),
            old(self).can_place_spec(toplevel.width, toplevel.height),
            forall|k: int|
                0 <= k < children@.len() ==> child_in_bounds(
                    (#[trigger] children@[k]).1,
                    toplevel.width,
                    toplevel.height,
                ),
        ensures
            final(self).inv(),
            final(self).page_width() == old(self).page_width(),
            final(self).page_height() == old(self).page_height(),
            r.0.cluster_id == cluster_id,
            r.0.atlas_id == atlas_id,
            r.0.width == toplevel.width,
            r.0.height == toplevel.height,
            within_page(r.0, old(self).page_width(), old(self).page_height()),
            forall|k: int|
                0 <= k < old(self).placed().len() ==> rects_disjoint(
                    #[trigger] old(self).placed()[k],
                    r.0,
                ),
            final(self).placed() == old(self).placed().push(r.0),
            r.1@.len() == children@.len(),
            forall|k: int|
                0 <= k < children@.len() ==> #[trigger] r.1@[k] == child_record(
                    r.0,
                    children@[k].1,
                ),
    ;

    /// Clears the cursor and free-space state to start a fresh page.
    fn reset_param(&mut self)
        requires
            old(self).inv(),
        ensures
            final(self).inv(),
            final(self).page_width() == old(self).page_width(),
            final(self).page_height() == old(self).page_height(),
            final(self).placed() == Seq::<PlacedTextureGeometry>::empty(),
    ;
}

/// The simplest verified strategy: regions go side by side in one row at the
/// top of the page, each page a single shelf.
pub struct RowPlacer {
    width: u32,
    height: u32,
    cursor_x: u32,
    placed_rects: Ghost<Seq<PlacedTextureGeometry>>,
}

impl RowPlacer {
    /// A row placer over empty `width` x `height` pages.
    pub fn new(width: u32, height: u32) -> (r: Self)
        ensures
            r.inv(),
            r.page_width() == width,
            r.page_height() == height,
            r.placed() == Seq::<PlacedTextureGeometry>::empty(),
    {
        RowPlacer { width, height, cursor_x: 0, placed_rects: Ghost(Seq::empty()) }
    }
}

impl TexturePlacer for RowPlacer {
    closed spec fn inv(&self) -> bool {
        &&& self.cursor_x <= self.width
        &&& self.placed_rects@.len() == 0 ==> self.cursor_x == 0
        &&& forall|k: int|
            0 <= k < self.placed_rects@.len() ==> (#[trigger] self.placed_rects@[k]).origin.0
                + self.placed_rects@[k].width <= self.cursor_x && self.placed_rects@[k].origin.1
                == 0 && self.placed_rects@[k].origin.1 + self.placed_rects@[k].height <= self.height
    }

    closed spec fn page_width(&self) -> u32 {
        self.width
    }

    closed spec fn page_height(&self) -> u32 {
        self.height
    }

    closed spec fn placed(&self) -> Seq<PlacedTextureGeometry> {
        self.placed_rects@
    }

    closed spec fn can_place_spec(&self, width: u32, height: u32) -> bool {
        self.cursor_x + width <= self.width && height <= self.height
    }

    fn can_place(&self, toplevel: &ToplevelTexture) -> (r: bool)
    {
        let fits_x = (self.cursor_x as u64) + (toplevel.width as u64) <= (self.width as u64);
        fits_x && toplevel.height <= self.height
    }

    proof fn empty_page_accepts(&self, width: u32, height: u32) {
    }

    fn place_texture(
        &mut self,
        toplevel: &ToplevelTexture,
        children: &Vec<(usize, ChildTexture)>,
        cluster_id: usize,
        atlas_id: usize,
    ) -> (r: (PlacedTextureGeometry, Vec<PlacedTextureInfo>))
    {
        let x = self.cursor_x;
        let geom = PlacedTextureGeometry {
            cluster_id,
            atlas_id,
            origin: (x, 0),
            width: toplevel.width,
            height: toplevel.height,
        };
        self.cursor_x = x + toplevel.width;
        proof {
            self.placed_rects@ = self.placed_rects@.push(geom);
        }
        let mut infos: Vec<PlacedTextureInfo> = Vec::new();
        let mut k: usize = 0;
        while k < children.len()
            invariant
                k <= children@.len(),
                infos@.len() == k,
                geom.atlas_id == atlas_id,
                geom.origin.0 + geom.width <= u32::MAX,
                geom.origin.1 + geom.height <= u32::MAX,
                forall|h: int|
                    0 <= h < children@.len() ==> child_in_bounds(
                        (#[trigger] children@[h]).1,
                        geom.width,
                        geom.height,
                    ),
                forall|h: int|
                    0 <= h < k ==> #[trigger] infos@[h] == child_record(geom, children@[h].1),
            decreases children@.len() - k,
        {
            let child = children[k].1;
            assert(child_in_bounds(children@[k as int].1, geom.width, geom.height));
            let info = PlacedTextureInfo {
                atlas_id,
                origin: (geom.origin.0 + child.offset.0, geom.origin.1 + child.offset.1),
                width: child.width,
                height: child.height,
            };
            let ghost infos0 = infos@;
            infos.push(info);
            proof {
                assert(infos@[k as int] == child_record(geom, children@[k as int].1));
                assert forall|h: int|
                    0 <= h < k + 1 implies #[trigger] infos@[h] == child_record(
                    geom,
                    children@[h].1,
                ) by {
                    if h < k {
                        assert(infos@[h] == infos0[h]);
                    }
                }
            }
            k = k + 1;
        }
        (geom, infos)
    }

    fn reset_param(&mut self)
    {
        self.cursor_x = 0;
        proof {
            self.placed_rects@ = Seq::empty();
        }
    }
}

} // verus!
