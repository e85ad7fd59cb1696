//! COCO (Common Objects in Context) dataset support: the data model,
//! reading options and filters, dataset merging and validation, the
//! decoding of run-length-encoded segmentation masks, and conversion
//! between COCO datasets and the rows of the EdgeFirst Arrow table.

pub mod types;
pub mod arrow;
pub mod contour;
pub mod polygon;
pub mod convert;
pub mod reader;
pub mod rle;
pub mod studio;
