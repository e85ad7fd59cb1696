//! Polygon rings stored as one flat coordinate list.
//!
//! The list holds `x, y` pairs; a single NaN separates one ring from the
//! next. Coordinates are `f32` bit patterns (see [`crate::float_bits`]).

use vstd::prelude::*;
use crate::float_bits::{f32_bits_is_nan, f32_is_nan};

verus! {

/// `polys` with `current` appended when it has any point.
pub open spec fn close_ring(polys: Seq<Seq<(u32, u32)>>, current: Seq<(u32, u32)>) -> Seq<Seq<(u32, u32)>> {
    if current.len() > 0 {
        polys.push(current)
    } else {
        polys
    }
}

/// The rings read from position `i` on, with ring `current` in progress
/// and rings `polys` complete: a NaN closes the ring in progress; a value
/// followed by a value that is not NaN is a point; a value followed by a
/// NaN, or a last value alone, is skipped.
pub open spec fn rings_from(
    c: Seq<u32>,
    i: int,
    current: Seq<(u32, u32)>,
    polys: Seq<Seq<(u32, u32)>>,
) -> Seq<Seq<(u32, u32)>>
    decreases c.len() - i,
{
    if i >= c.len() || i < 0 {
        close_ring(polys, current)
    } else if f32_bits_is_nan(c[i]) {
        rings_from(c, i + 1, Seq::empty(), close_ring(polys, current))
    } else if i + 1 < c.len() && !f32_bits_is_nan(c[i + 1]) {
        rings_from(c, i + 2, current.push((c[i], c[i + 1])), polys)
    } else {
        rings_from(c, i + 1, current, polys)
    }
}

/// The rings of a flat coordinate list.
pub open spec fn rings_of(c: Seq<u32>) -> Seq<Seq<(u32, u32)>> {
    rings_from(c, 0, Seq::empty(), Seq::empty())
}

/// Split a NaN-separated flat coordinate list into rings of `(x, y)`
/// points; no ring is empty.
pub fn unflatten_polygon_coords(coords: &Vec<u32>) -> (r: Vec<Vec<(u32, u32)>>)
    ensures
        r@.map_values(|p: Vec<(u32, u32)>| p@) == rings_of(coords@),
{
    let ghost target = rings_of(coords@);
    let mut polygons: Vec<Vec<(u32, u32)>> = Vec::new();
    let mut current: Vec<(u32, u32)> = Vec::new();
    let mut i: usize = 0;
    assert(polygons@.map_values(|p: Vec<(u32, u32)>| p@) =~= Seq::<Seq<(u32, u32)>>::empty());
    assert(current@ =~= Seq::<(u32, u32)>::empty());
    while i < coords.len()
        invariant
            i <= coords.len(),
            rings_from(coords@, i as int, current@, polygons@.map_values(|p: Vec<(u32, u32)>| p@))
                == target,
        decreases coords.len() - i,
    {
        let ghost polys = polygons@.map_values(|p: Vec<(u32, u32)>| p@);
        if f32_is_nan(coords[i]) {
            if current.len() > 0 {
                let done = current;
                current = Vec::new();
                polygons.push(done);
                assert(polygons@.map_values(|p: Vec<(u32, u32)>| p@) =~= polys.push(done@));
            } else {
                assert(current@ =~= Seq::<(u32, u32)>::empty());
            }
            i = i + 1;
        } else if i + 1 < coords.len() && !f32_is_nan(coords[i + 1]) {
            current.push((coords[i], coords[i + 1]));
            i = i + 2;
        } else {
            i = i + 1;
        }
    }
    let ghost polys = polygons@.map_values(|p: Vec<(u32, u32)>| p@);
    if current.len() > 0 {
        polygons.push(current);
        assert(polygons@.map_values(|p: Vec<(u32, u32)>| p@) =~= polys.push(
            polygons@[polygons.len() - 1]@,
        ));
    }
    polygons
}

proof fn lemma_rings_from_nonempty(c: Seq<u32>, i: int, current: Seq<(u32, u32)>, polys: Seq<Seq<(u32, u32)>>)
    requires
        forall|k: int| 0 <= k < polys.len() ==> #[trigger] polys[k].len() > 0,
    ensures
        forall|k: int| 0 <= k < rings_from(c, i, current, polys).len() ==> #[trigger] rings_from(c, i, current, polys)[k].len() > 0,
    decreases c.len() - i,
{
    let closed = close_ring(polys, current);
    assert forall|k: int| 0 <= k < closed.len() implies #[trigger] closed[k].len() > 0 by {
        if k < polys.len() {
            assert(closed[k] == polys[k]);
        }
    }
    if i >= c.len() || i < 0 {
        assert(rings_from(c, i, current, polys) == closed);
    } else if f32_bits_is_nan(c[i]) {
        lemma_rings_from_nonempty(c, i + 1, Seq::empty(), closed);
        assert(rings_from(c, i, current, polys) == rings_from(c, i + 1, Seq::empty(), closed));
    } else if i + 1 < c.len() && !f32_bits_is_nan(c[i + 1]) {
        lemma_rings_from_nonempty(c, i + 2, current.push((c[i], c[i + 1])), polys);
        assert(rings_from(c, i, current, polys) == rings_from(c, i + 2, current.push((c[i], c[i + 1])), polys));
    } else {
        lemma_rings_from_nonempty(c, i + 1, current, polys);
        assert(rings_from(c, i, current, polys) == rings_from(c, i + 1, current, polys));
    }
}

/// No ring read from a flat coordinate list is empty.
pub proof fn lemma_rings_are_not_empty(c: Seq<u32>)
    ensures
        forall|k: int| 0 <= k < rings_of(c).len() ==> #[trigger] rings_of(c)[k].len() > 0,
{
    lemma_rings_from_nonempty(c, 0, Seq::empty(), Seq::empty());
}

} // verus!
