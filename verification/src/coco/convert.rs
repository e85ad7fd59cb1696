//! Conversion of COCO segmentations to sample masks.

use vstd::prelude::*;
use crate::coco::contour::{
    all_foreground, contours_of, lemma_contours_are_foreground, lemma_contours_are_rings, mask_to_contours,
    no_repeated_point,
};
use crate::coco::rle::{
    compressed_counts, counts_total, decode_leb128, decode_rle, leb_all_ok, leb_bad_char_message,
    leb_first_bad, leb_group_too_long, leb_values, rle_size_message, row_major, run_pixels,
};
use crate::coco::types::{CocoRle, CocoSegmentation};
use crate::dataset::PixelMask;
use crate::error::Error;
use vstd::utf8::encode_utf8;

verus! {

/// The points of a flat coordinate list `[x1, y1, x2, y2, ...]`; an odd
/// trailing coordinate is dropped.
pub open spec fn coordinate_pairs(p: Seq<u64>) -> Seq<(u64, u64)> {
    Seq::new(p.len() / 2, |i: int| (p[2 * i], p[2 * i + 1]))
}

/// The rings of COCO polygons: those with at least three points (six
/// coordinates), as points.
pub open spec fn polygon_rings(polys: Seq<Vec<u64>>) -> Seq<Seq<(u64, u64)>> {
    polys.filter(|p: Vec<u64>| p@.len() >= 6).map_values(|p: Vec<u64>| coordinate_pairs(p@))
}

/// The ring views of a mask's rings.
pub open spec fn ring_views<T>(rings: Seq<Vec<T>>) -> Seq<Seq<T>> {
    rings.map_values(|r: Vec<T>| r@)
}

/// Whether `r` is the mask of run-length counts `counts` for an image of
/// `size == [height, width]`, scaled later to an image of
/// `image_width` x `image_height`: the contours of the decoded mask, or
/// the error when the counts do not cover the image.
pub open spec fn rle_mask_outcome(
    r: Result<PixelMask, Error>,
    counts: Seq<u32>,
    size: [u32; 2],
    image_width: u32,
    image_height: u32,
) -> bool {
    let height = size[0] as nat;
    let width = size[1] as nat;
    if counts_total(counts) == height * width {
        r matches Ok(PixelMask::Contours { rings, image_width: iw, image_height: ih }) && iw
            == image_width && ih == image_height && ring_views(rings@) == contours_of(
            row_major(run_pixels(counts, false), height, width),
            width as int,
            height as int,
        )
    } else {
        r matches Err(Error::CocoError(m)) && m@ == rle_size_message(counts_total(counts), height, width)
    }
}

/// Whether decoding a segmentation runs within the machine's limits: the
/// pixel count fits a `usize`, the run lengths sum within a `u64`, and
/// no group of compressed counts runs past thirteen characters.
pub open spec fn segmentation_decodable(seg: CocoSegmentation) -> bool {
    match seg {
        CocoSegmentation::Polygon(_) => true,
        CocoSegmentation::Rle(rle) => rle.size[0] * rle.size[1] <= usize::MAX && counts_total(
            rle.counts@,
        ) <= u64::MAX,
        CocoSegmentation::CompressedRle(c) => {
            let bytes = encode_utf8(c.counts@);
            &&& c.size[0] * c.size[1] <= usize::MAX
            &&& !leb_group_too_long(bytes)
            &&& leb_all_ok(bytes) ==> counts_total(compressed_counts(bytes)) <= u64::MAX
        },
    }
}

/// Whether `r` is the mask of segmentation `seg` on an image of
/// `image_width` x `image_height`.
pub open spec fn segmentation_mask_outcome(
    r: Result<PixelMask, Error>,
    seg: CocoSegmentation,
    image_width: u32,
    image_height: u32,
) -> bool {
    match seg {
        CocoSegmentation::Polygon(polys) => r matches Ok(
            PixelMask::Polygons { rings, image_width: iw, image_height: ih },
        ) && iw == image_width && ih == image_height && ring_views(rings@) == polygon_rings(polys@),
        CocoSegmentation::Rle(rle) => rle_mask_outcome(r, rle.counts@, rle.size, image_width, image_height),
        CocoSegmentation::CompressedRle(c) => {
            let bytes = encode_utf8(c.counts@);
            if leb_all_ok(bytes) {
                rle_mask_outcome(r, compressed_counts(bytes), c.size, image_width, image_height)
            } else {
                r matches Err(Error::CocoError(m)) && m@ == leb_bad_char_message(
                    bytes[leb_first_bad(bytes)],
                )
            }
        },
    }
}

/// The points of one flat coordinate list.
fn pairs_of(p: &Vec<u64>) -> (r: Vec<(u64, u64)>)
    ensures
        r@ == coordinate_pairs(p@),
{
    let len = p.len();
    let n = len / 2;
    let mut r: Vec<(u64, u64)> = Vec::new();
    let mut i: usize = 0;
    while i < n
        invariant
            len == p@.len(),
            n == len / 2,
            i <= n,
            r@ =~= coordinate_pairs(p@).take(i as int),
        decreases n - i,
    {
        r.push((p[2 * i], p[2 * i + 1]));
        i = i + 1;
    }
    r
}

/// Convert COCO polygons to a mask: polygons of fewer than three points
/// are dropped, the others become rings of points.
pub fn coco_polygon_to_mask(polygons: &Vec<Vec<u64>>, image_width: u32, image_height: u32) -> (m: PixelMask)
    ensures
        m matches PixelMask::Polygons { rings, image_width: iw, image_height: ih } && iw
            == image_width && ih == image_height && ring_views(rings@) == polygon_rings(polygons@),
{
    let ghost pred = |p: Vec<u64>| p@.len() >= 6;
    let ghost f = |p: Vec<u64>| coordinate_pairs(p@);
    let mut rings: Vec<Vec<(u64, u64)>> = Vec::new();
    let mut i: usize = 0;
    while i < polygons.len()
        invariant
            i <= polygons.len(),
            pred == (|p: Vec<u64>| p@.len() >= 6),
            f == (|p: Vec<u64>| coordinate_pairs(p@)),
            ring_views(rings@) == polygons@.take(i as int).filter(pred).map_values(f),
        decreases polygons.len() - i,
    {
        proof {
            reveal_with_fuel(Seq::<_>::filter, 1);
            assert(polygons@.take(i + 1).drop_last() =~= polygons@.take(i as int));
        }
        let ghost before = rings@;
        if polygons[i].len() >= 6 {
            let ring = pairs_of(&polygons[i]);
            rings.push(ring);
            assert(ring_views(rings@) =~= ring_views(before).push(ring@));
            assert(polygons@.take(i + 1).filter(pred) =~= polygons@.take(i as int).filter(pred).push(
                polygons@[i as int],
            ));
        } else {
            assert(polygons@.take(i + 1).filter(pred) =~= polygons@.take(i as int).filter(pred));
        }
        i = i + 1;
    }
    assert(polygons@.take(polygons.len() as int) =~= polygons@);
    PixelMask::Polygons { rings, image_width, image_height }
}

/// Convert an uncompressed RLE segmentation to a mask: the contours of the
/// decoded mask, each a ring of at least three foreground pixels, none of
/// which comes twice.
pub fn coco_rle_to_mask(rle: &CocoRle, image_width: u32, image_height: u32) -> (r: Result<PixelMask, Error>)
    requires
        rle.size[0] * rle.size[1] <= usize::MAX,
        counts_total(rle.counts@) <= u64::MAX,
    ensures
        rle_mask_outcome(r, rle.counts@, rle.size, image_width, image_height),
        r matches Ok(PixelMask::Contours { rings, .. }) ==> forall|j: int|
            0 <= j < rings@.len() ==> {
                let ring = #[trigger] rings@[j]@;
                &&& ring.len() >= 3
                &&& no_repeated_point(ring)
                &&& all_foreground(
                    row_major(run_pixels(rle.counts@, false), rle.size[0] as nat, rle.size[1] as nat),
                    rle.size[1] as int,
                    rle.size[0] as int,
                    ring,
                )
            },
{
    let (mask, height, width) = match decode_rle(rle) {
        Ok(d) => d,
        Err(e) => {
            return Err(e);
        },
    };
    proof {
        assert(width * height == height * width) by (nonlinear_arith);
    }
    let rings = mask_to_contours(mask.as_slice(), width, height);
    proof {
        lemma_contours_are_rings(mask@, width as int, height as int);
        lemma_contours_are_foreground(mask@, width as int, height as int);
        assert forall|j: int| 0 <= j < rings@.len() implies #[trigger] rings@[j]@ == contours_of(
            mask@,
            width as int,
            height as int,
        )[j] by {
            assert(rings@.map_values(|c: Vec<(u32, u32)>| c@)[j] == rings@[j]@);
        }
    }
    Ok(PixelMask::Contours { rings, image_width, image_height })
}

/// Convert any COCO segmentation to a mask; the contours of a run-length
/// mask are rings of at least three pixels, none of which comes twice.
pub fn coco_segmentation_to_mask(seg: &CocoSegmentation, image_width: u32, image_height: u32) -> (r:
    Result<PixelMask, Error>)
    requires
        segmentation_decodable(*seg),
    ensures
        segmentation_mask_outcome(r, *seg, image_width, image_height),
        r matches Ok(PixelMask::Contours { rings, .. }) ==> forall|j: int|
            0 <= j < rings@.len() ==> #[trigger] rings@[j]@.len() >= 3 && no_repeated_point(rings@[j]@),
{
    match seg {
        CocoSegmentation::Polygon(polys) => Ok(coco_polygon_to_mask(polys, image_width, image_height)),
        CocoSegmentation::Rle(rle) => coco_rle_to_mask(rle, image_width, image_height),
        CocoSegmentation::CompressedRle(c) => {
            let counts = match decode_leb128(c.counts.as_str()) {
                Ok(counts) => counts,
                Err(e) => {
                    return Err(e);
                },
            };
            let rle = CocoRle { counts, size: c.size };
            coco_rle_to_mask(&rle, image_width, image_height)
        },
    }
}

} // verus!
