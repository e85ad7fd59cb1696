//! Verified core of the EdgeFirst Studio client: typed identifiers, COCO
//! dataset handling and the request/response rules of the Studio API.

pub mod api;
pub mod client;
pub mod coco;
pub mod dataset;
pub mod error;
pub mod float_bits;
pub mod hex;
pub mod ids;
pub mod json;
pub mod multipart;
pub mod path;
pub mod retry;
pub mod search;
pub mod text;

use vstd::prelude::*;

verus! {
}
