//! Packs polygon-bounded texture fragments, each cropped from a larger source
//! image, into a small set of fixed-size atlas pages.
//!
//! The pipeline: fragments (`texture`) that overlap and share a source image
//! are clustered into "toplevel" bounding regions (`cluster`), a pluggable
//! placement strategy assigns each toplevel region to an atlas page (`pack`,
//! `place`), and the pixel data for a fragment is extracted from its source
//! image and downsampled (`raster`). The disjoint-set structure drives the
//! clustering (`disjoint_set`), and the fixed-point geometry helpers
//! (`geometry`) supply UV-to-pixel conversion, bounding boxes, and the
//! point-in-polygon test.

pub mod cluster;
pub mod disjoint_set;
pub mod geometry;
pub mod pack;
pub mod place;
pub mod raster;
pub mod texture;
