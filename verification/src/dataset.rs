//! Samples and annotations as the Studio dataset API carries them.
//!
//! Geometry stays in the pixel coordinates of its image: a box or polygon
//! as `f64` bit patterns, a decoded mask as the integer pixel positions of
//! its contours. Scaling to the `[0, 1]` range is a floating-point step
//! done where the records are serialised.

use vstd::prelude::*;

verus! {

/// A COCO box `[x, y, width, height]` (`f64` bit patterns, pixels) on an
/// image of the given size.
#[derive(Clone, Debug, PartialEq)]
pub struct PixelBox {
    pub bbox: [u64; 4],
    pub image_width: u32,
    pub image_height: u32,
}

/// A segmentation mask in pixel coordinates on an image of the given size.
#[derive(Clone, Debug, PartialEq)]
pub enum PixelMask {
    /// Rings of `(x, y)` points, each coordinate an `f64` bit pattern.
    Polygons { rings: Vec<Vec<(u64, u64)>>, image_width: u32, image_height: u32 },
    /// Rings of `(column, row)` pixel positions traced on a decoded mask.
    Contours { rings: Vec<Vec<(u32, u32)>>, image_width: u32, image_height: u32 },
}

/// A named group of a dataset's samples (such as `train` or `val`).
#[derive(Clone, Debug)]
pub struct Group {
    pub id: u64,
    pub name: String,
}

/// A label of a dataset on the server: its id and name.
#[derive(Clone, Debug)]
pub struct Label {
    pub id: u64,
    pub name: String,
}

/// One annotation of a sample.
#[derive(Clone, Debug, PartialEq)]
pub struct Annotation {
    pub name: Option<String>,
    pub label: Option<String>,
    pub label_index: Option<u64>,
    pub group: Option<String>,
    pub box2d: Option<PixelBox>,
    pub mask: Option<PixelMask>,
}

impl Annotation {
    /// An annotation with every field unset.
    pub fn new() -> (a: Annotation)
        ensures
            a.name is None,
            a.label is None,
            a.label_index is None,
            a.group is None,
            a.box2d is None,
            a.mask is None,
    {
        Annotation { name: None, label: None, label_index: None, group: None, box2d: None, mask: None }
    }

    /// The annotation's label, if any.
    pub fn label(&self) -> (r: Option<&String>)
        ensures
            r == (match self.label {
                Some(l) => Some(&l),
                None => None,
            }),
    {
        match &self.label {
            Some(l) => Some(l),
            None => None,
        }
    }
}

/// A file attached to a sample: its type (such as `"image"`) and path.
#[derive(Clone, Debug, PartialEq)]
pub struct SampleFile {
    pub file_type: String,
    pub filename: Option<String>,
}

impl SampleFile {
    /// A file of the given type at the given path.
    pub fn with_filename(file_type: String, filename: String) -> (f: SampleFile)
        ensures
            f.file_type == file_type,
            f.filename == Some(filename),
    {
        SampleFile { file_type, filename: Some(filename) }
    }
}

/// A sample: one image with its files and annotations.
#[derive(Clone, Debug, PartialEq)]
pub struct Sample {
    pub image_name: Option<String>,
    pub width: Option<u32>,
    pub height: Option<u32>,
    pub group: Option<String>,
    pub files: Vec<SampleFile>,
    pub annotations: Vec<Annotation>,
}

} // verus!
