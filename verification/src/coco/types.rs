//! The COCO data model.
//!
//! Float-valued COCO fields (bounding boxes, areas, polygon coordinates)
//! are held as `f64` bit patterns; see [`crate::float_bits`].

use vstd::prelude::*;

verus! {

/// The `info` section of a COCO file.
#[derive(Clone, Debug, Default, PartialEq)]
pub struct CocoInfo {
    pub description: Option<String>,
    pub url: Option<String>,
    pub version: Option<String>,
    pub year: Option<u32>,
    pub contributor: Option<String>,
    pub date_created: Option<String>,
}

/// A license entry.
#[derive(Clone, Debug, Default, PartialEq)]
pub struct CocoLicense {
    pub id: u64,
    pub name: String,
    pub url: Option<String>,
}

/// An image entry.
#[derive(Clone, Debug, Default, PartialEq)]
pub struct CocoImage {
    pub id: u64,
    pub width: u32,
    pub height: u32,
    pub file_name: String,
    pub license: Option<u64>,
    pub flickr_url: Option<String>,
    pub coco_url: Option<String>,
    pub date_captured: Option<String>,
    /// LVIS: categories verified absent from the image.
    pub neg_category_ids: Option<Vec<u64>>,
    /// LVIS: categories not exhaustively annotated on the image.
    pub not_exhaustive_category_ids: Option<Vec<u64>>,
}

/// A category (label) entry.
#[derive(Clone, Debug, Default, PartialEq)]
pub struct CocoCategory {
    pub id: u64,
    pub name: String,
    pub supercategory: Option<String>,
    /// LVIS: how often the category occurs (`r`, `c` or `f`).
    pub frequency: Option<String>,
    /// LVIS: the WordNet synset.
    pub synset: Option<String>,
    /// LVIS: other names of the category.
    pub synonyms: Option<Vec<String>>,
    /// LVIS: the definition.
    pub def: Option<String>,
}

/// Uncompressed run-length encoding: alternating background/foreground run
/// lengths in column-major order, starting with background; `size` is
/// `[height, width]`.
#[derive(Clone, Debug, Default, PartialEq)]
pub struct CocoRle {
    pub counts: Vec<u32>,
    pub size: [u32; 2],
}

/// Compressed run-length encoding: the counts as the pycocotools
/// character string; `size` is `[height, width]`.
#[derive(Clone, Debug, Default, PartialEq)]
pub struct CocoCompressedRle {
    pub counts: String,
    pub size: [u32; 2],
}

/// A segmentation: polygons of pixel coordinates (`f64` bit patterns,
/// `[x1, y1, x2, y2, ...]` per polygon) or a run-length encoded mask.
#[derive(Clone, Debug, PartialEq)]
pub enum CocoSegmentation {
    Polygon(Vec<Vec<u64>>),
    Rle(CocoRle),
    CompressedRle(CocoCompressedRle),
}

/// An object annotation. `bbox` is `[x, y, width, height]` in pixels and
/// `area` is in square pixels, both as `f64` bit patterns.
#[derive(Clone, Debug, Default, PartialEq)]
pub struct CocoAnnotation {
    pub id: u64,
    pub image_id: u64,
    pub category_id: u64,
    pub segmentation: Option<CocoSegmentation>,
    pub area: u64,
    pub bbox: [u64; 4],
    pub iscrowd: u8,
    /// A detection score (`f64` bit pattern), for results files.
    pub score: Option<u64>,
}

/// A complete COCO dataset.
#[derive(Clone, Debug, Default, PartialEq)]
pub struct CocoDataset {
    pub info: CocoInfo,
    pub images: Vec<CocoImage>,
    pub annotations: Vec<CocoAnnotation>,
    pub categories: Vec<CocoCategory>,
    pub licenses: Vec<CocoLicense>,
}

/// The ids of a sequence of images.
pub open spec fn image_ids(images: Seq<CocoImage>) -> Seq<u64> {
    images.map_values(|i: CocoImage| i.id)
}

/// The ids of a sequence of categories.
pub open spec fn category_ids(categories: Seq<CocoCategory>) -> Seq<u64> {
    categories.map_values(|c: CocoCategory| c.id)
}

/// The ids of a sequence of licenses.
pub open spec fn license_ids(licenses: Seq<CocoLicense>) -> Seq<u64> {
    licenses.map_values(|l: CocoLicense| l.id)
}

} // verus!
