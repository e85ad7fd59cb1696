//! Tracing the outer contours of a binary mask.
//!
//! Foreground pixels have value 1 and background pixels value 0. Masks are
//! row-major, `width` pixels to a row. Contour points are `(column, row)`
//! pixel positions.

use vstd::prelude::*;

verus! {

/// Column step of direction `d`: east, south-east, south, south-west,
/// west, north-west, north, north-east.
pub open spec fn dir_dx(d: int) -> int {
    if d == 0 || d == 1 || d == 7 {
        1
    } else if d == 3 || d == 4 || d == 5 {
        -1
    } else {
        0
    }
}

/// Row step of direction `d` (rows grow southwards).
pub open spec fn dir_dy(d: int) -> int {
    if d == 1 || d == 2 || d == 3 {
        1
    } else if d == 5 || d == 6 || d == 7 {
        -1
    } else {
        0
    }
}

/// Whether the neighbour of `(x, y)` in direction `d` lies in the image
/// and is a foreground pixel.
pub open spec fn fg_neighbor(mask: Seq<u8>, w: int, h: int, x: int, y: int, d: int) -> bool {
    let nx = x + dir_dx(d);
    let ny = y + dir_dy(d);
    0 <= nx < w && 0 <= ny < h && mask[ny * w + nx] == 1
}

/// The first turn `i` from `from` up to 7 such that the neighbour in
/// direction `(dir + i) % 8` is foreground.
pub open spec fn first_turn(mask: Seq<u8>, w: int, h: int, x: int, y: int, dir: int, from: int) -> Option<int>
    decreases 8 - from,
{
    if from >= 8 || from < 0 {
        None
    } else if fg_neighbor(mask, w, h, x, y, (dir + from) % 8) {
        Some(from)
    } else {
        first_turn(mask, w, h, x, y, dir, from + 1)
    }
}

/// Records a visit of pixel `(x, y)`: an unvisited pixel joins the contour
/// and is marked visited.
pub open spec fn visit(contour: Seq<(u32, u32)>, visited: Seq<bool>, w: int, x: int, y: int) -> (Seq<(u32, u32)>, Seq<bool>) {
    let idx = y * w + x;
    if !visited[idx] {
        (contour.push((x as u32, y as u32)), visited.update(idx, true))
    } else {
        (contour, visited)
    }
}

/// Tracing from `(x, y)`, heading `dir`, after `steps` moves of at most
/// `max`: visit the pixel, then move to the first foreground neighbour
/// clockwise from `dir` and search from the direction that looks back
/// over the move. Tracing stops when no neighbour is foreground, when it
/// returns to the start with more than two points, or after `max` moves.
/// Yields the contour and the visited pixels.
pub open spec fn trace_from(
    mask: Seq<u8>,
    w: int,
    h: int,
    sx: int,
    sy: int,
    x: int,
    y: int,
    dir: int,
    steps: int,
    max: int,
    contour: Seq<(u32, u32)>,
    visited: Seq<bool>,
) -> (Seq<(u32, u32)>, Seq<bool>)
    decreases max - steps,
{
    let (c, v) = visit(contour, visited, w, x, y);
    match first_turn(mask, w, h, x, y, dir, 0) {
        None => (c, v),
        Some(i) => {
            let nd = (dir + i) % 8;
            let nx = x + dir_dx(nd);
            let ny = y + dir_dy(nd);
            if (nx == sx && ny == sy && c.len() > 2) || steps + 1 > max || steps < 0 {
                (c, v)
            } else {
                trace_from(mask, w, h, sx, sy, nx, ny, (nd + 5) % 8, steps + 1, max, c, v)
            }
        },
    }
}

/// The contour traced from `(sx, sy)` heading east, at most `w * h` moves.
pub open spec fn traced(mask: Seq<u8>, w: int, h: int, sx: int, sy: int, visited: Seq<bool>) -> (Seq<(u32, u32)>, Seq<bool>) {
    trace_from(mask, w, h, sx, sy, sx, sy, 0, 0, w * h, Seq::empty(), visited)
}

/// Whether foreground pixel `(x, y)` lies on the image border or has a
/// background pixel among its four direct neighbours.
pub open spec fn is_boundary(mask: Seq<u8>, w: int, h: int, x: int, y: int) -> bool {
    let idx = y * w + x;
    ||| x == 0
    ||| x == w - 1
    ||| y == 0
    ||| y == h - 1
    ||| (x > 0 && mask[idx - 1] == 0)
    ||| (x < w - 1 && mask[idx + 1] == 0)
    ||| (y > 0 && mask[idx - w] == 0)
    ||| (y < h - 1 && mask[idx + w] == 0)
}

/// The contours found among the first `k` pixels in row-major order, and
/// the visited pixels: each unvisited foreground boundary pixel starts a
/// trace, whose contour is kept when it has at least three points.
pub open spec fn scan_contours(mask: Seq<u8>, w: int, h: int, k: int) -> (Seq<Seq<(u32, u32)>>, Seq<bool>)
    decreases k,
{
    if k <= 0 {
        (Seq::empty(), Seq::new(mask.len(), |_i: int| false))
    } else {
        let (cs, vis) = scan_contours(mask, w, h, k - 1);
        let p = k - 1;
        let x = p % w;
        let y = p / w;
        if mask[p] == 1 && !vis[p] && is_boundary(mask, w, h, x, y) {
            let (c, vis2) = traced(mask, w, h, x, y, vis);
            (
                if c.len() >= 3 {
                    cs.push(c)
                } else {
                    cs
                },
                vis2,
            )
        } else {
            (cs, vis)
        }
    }
}

/// The outer contours of a mask.
pub open spec fn contours_of(mask: Seq<u8>, w: int, h: int) -> Seq<Seq<(u32, u32)>> {
    scan_contours(mask, w, h, w * h).0
}

proof fn lemma_first_turn(mask: Seq<u8>, w: int, h: int, x: int, y: int, dir: int, from: int, i: int)
    requires
        first_turn(mask, w, h, x, y, dir, from) == Some(i),
    ensures
        0 <= from <= i < 8,
        fg_neighbor(mask, w, h, x, y, (dir + i) % 8),
    decreases 8 - from,
{
    if 0 <= from < 8 && !fg_neighbor(mask, w, h, x, y, (dir + from) % 8) {
        lemma_first_turn(mask, w, h, x, y, dir, from + 1, i);
    }
}

proof fn lemma_cell_in_bounds(x: int, y: int, w: int, h: int)
    requires
        0 <= x < w,
        0 <= y < h,
    ensures
        0 <= y * w + x < w * h,
{
    assert(0 <= y * w + x < w * h) by (nonlinear_arith)
        requires
            0 <= x < w,
            0 <= y < h,
    ;
}

/// The step of direction `d`.
fn dir_step(d: usize) -> (r: (i64, i64))
    requires
        d < 8,
    ensures
        r.0 == dir_dx(d as int),
        r.1 == dir_dy(d as int),
{
    if d == 0 {
        (1, 0)
    } else if d == 1 {
        (1, 1)
    } else if d == 2 {
        (0, 1)
    } else if d == 3 {
        (-1, 1)
    } else if d == 4 {
        (-1, 0)
    } else if d == 5 {
        (-1, -1)
    } else if d == 6 {
        (0, -1)
    } else {
        (1, -1)
    }
}

/// The neighbour of `(x, y)` in direction `d`, when it lies in the image.
fn neighbor(x: usize, y: usize, d: usize, width: usize, height: usize) -> (r: Option<(usize, usize)>)
    requires
        d < 8,
        x < width,
        y < height,
    ensures
        r matches Some((nx, ny)) ==> nx == x + dir_dx(d as int) && ny == y + dir_dy(d as int)
            && nx < width && ny < height,
        r is None ==> !(0 <= x + dir_dx(d as int) < width && 0 <= y + dir_dy(d as int) < height),
{
    let (dx, dy) = dir_step(d);
    if (dx < 0 && x == 0) || (dy < 0 && y == 0) {
        return None;
    }
    let nx: usize = if dx < 0 {
        x - 1
    } else {
        x + dx as usize
    };
    let ny: usize = if dy < 0 {
        y - 1
    } else {
        y + dy as usize
    };
    if nx < width && ny < height {
        Some((nx, ny))
    } else {
        None
    }
}

/// The first turn clockwise from `dir` towards a foreground neighbour.
fn find_turn(mask: &[u8], width: usize, height: usize, x: usize, y: usize, dir: usize) -> (r: Option<usize>)
    requires
        width * height <= mask@.len(),
        x < width,
        y < height,
        dir < 8,
    ensures
        r matches Some(i) ==> i < 8 && first_turn(mask@, width as int, height as int, x as int, y as int, dir as int, 0) == Some(i as int),
        r is None ==> first_turn(mask@, width as int, height as int, x as int, y as int, dir as int, 0) is None,
{
    let len = mask.len();
    let mut i: usize = 0;
    while i < 8
        invariant
            i <= 8,
            len == mask@.len(),
            width * height <= mask@.len(),
            x < width,
            y < height,
            dir < 8,
            first_turn(mask@, width as int, height as int, x as int, y as int, dir as int, 0)
                == first_turn(mask@, width as int, height as int, x as int, y as int, dir as int, i as int),
        decreases 8 - i,
    {
        let d = (dir + i) % 8;
        match neighbor(x, y, d, width, height) {
            Some((nx, ny)) => {
                proof {
                    lemma_cell_in_bounds(nx as int, ny as int, width as int, height as int);
                }
                if mask[ny * width + nx] == 1 {
                    return Some(i);
                }
            },
            None => {},
        }
        i = i + 1;
    }
    None
}

/// Trace the contour through the foreground pixel `(start_x, start_y)`,
/// marking the pixels it visits. Yields the contour when it has at least
/// three points.
pub fn trace_contour(
    mask: &[u8],
    width: usize,
    height: usize,
    start_x: usize,
    start_y: usize,
    visited: &mut Vec<bool>,
) -> (r: Option<Vec<(u32, u32)>>)
    requires
        width * height <= mask@.len(),
        old(visited)@.len() == mask@.len(),
        start_x < width,
        start_y < height,
        width <= u32::MAX,
        height <= u32::MAX,
    ensures
        ({
            let t = traced(mask@, width as int, height as int, start_x as int, start_y as int, old(visited)@);
            &&& final(visited)@ == t.1
            &&& final(visited)@.len() == old(visited)@.len()
            &&& match r {
                Some(c) => t.0.len() >= 3 && c@ == t.0,
                None => t.0.len() < 3,
            }
        }),
{
    let len = mask.len();
    let ghost target = traced(mask@, width as int, height as int, start_x as int, start_y as int, visited@);
    let mut contour: Vec<(u32, u32)> = Vec::new();
    let mut x = start_x;
    let mut y = start_y;
    let mut dir: usize = 0;
    let mut steps: usize = 0;
    let max_steps = width * height;
    loop
        invariant_except_break
            x < width,
            y < height,
            dir < 8,
            steps <= max_steps,
            trace_from(mask@, width as int, height as int, start_x as int, start_y as int, x as int, y as int, dir as int, steps as int, max_steps as int, contour@, visited@) == target,
        invariant
            max_steps == width * height,
            width * height <= mask@.len(),
            visited@.len() == mask@.len(),
            width <= u32::MAX,
            height <= u32::MAX,
        ensures
            (contour@, visited@) == target,
        decreases max_steps - steps,
    {
        proof {
            lemma_cell_in_bounds(x as int, y as int, width as int, height as int);
        }
        let idx = y * width + x;
        if !visited[idx] {
            contour.push((x as u32, y as u32));
            visited.set(idx, true);
        }
        match find_turn(mask, width, height, x, y, dir) {
            None => {
                break;
            },
            Some(i) => {
                let nd = (dir + i) % 8;
                let (nx, ny) = match neighbor(x, y, nd, width, height) {
                    Some(p) => p,
                    None => {
                        proof {
                            lemma_first_turn(mask@, width as int, height as int, x as int, y as int, dir as int, 0, i as int);
                        }
                        break;
                    },
                };
                x = nx;
                y = ny;
                dir = (nd + 5) % 8;
                if x == start_x && y == start_y && contour.len() > 2 {
                    break;
                }
                if steps >= max_steps {
                    break;
                }
                steps = steps + 1;
            },
        }
    }
    if contour.len() >= 3 {
        Some(contour)
    } else {
        None
    }
}

/// Decides whether foreground pixel `(x, y)` is a boundary pixel.
fn boundary(mask: &[u8], width: usize, height: usize, x: usize, y: usize) -> (b: bool)
    requires
        width * height <= mask@.len(),
        x < width,
        y < height,
    ensures
        b == is_boundary(mask@, width as int, height as int, x as int, y as int),
{
    let len = mask.len();
    proof {
        lemma_cell_in_bounds(x as int, y as int, width as int, height as int);
    }
    let idx = y * width + x;
    if x == 0 || x == width - 1 || y == 0 || y == height - 1 {
        return true;
    }
    proof {
        lemma_cell_in_bounds((x + 1) as int, y as int, width as int, height as int);
        lemma_cell_in_bounds(x as int, (y + 1) as int, width as int, height as int);
        lemma_cell_in_bounds(x as int, (y - 1) as int, width as int, height as int);
        assert((y + 1) * width + x == idx + width && (y - 1) * width + x == idx - width)
            by (nonlinear_arith)
            requires
                idx == y * width + x,
        ;
    }
    mask[idx - 1] == 0 || mask[idx + 1] == 0 || mask[idx - width] == 0 || mask[idx + width] == 0
}

/// The outer contours of a binary mask of `width` x `height` pixels,
/// each a list of `(column, row)` positions of at least three points.
pub fn mask_to_contours(mask: &[u8], width: u32, height: u32) -> (r: Vec<Vec<(u32, u32)>>)
    requires
        width * height <= mask@.len(),
    ensures
        r@.map_values(|c: Vec<(u32, u32)>| c@) == contours_of(mask@, width as int, height as int),
{
    let len = mask.len();
    let w = width as usize;
    let h = height as usize;
    let total = w * h;
    let mut contours: Vec<Vec<(u32, u32)>> = Vec::new();
    let mut visited: Vec<bool> = Vec::new();
    while visited.len() < len
        invariant
            len == mask@.len(),
            visited.len() <= len,
            forall|i: int| 0 <= i < visited.len() ==> !visited@[i],
        decreases len - visited.len(),
    {
        visited.push(false);
    }
    assert(visited@ =~= Seq::new(mask@.len(), |_i: int| false));
    let mut k: usize = 0;
    while k < total
        invariant
            k <= total,
            total == w * h,
            w == width,
            h == height,
            total <= mask@.len(),
            len == mask@.len(),
            visited@.len() == mask@.len(),
            (contours@.map_values(|c: Vec<(u32, u32)>| c@), visited@) == scan_contours(
                mask@,
                w as int,
                h as int,
                k as int,
            ),
        decreases total - k,
    {
        proof {
            if w == 0 {
                assert(w * h == 0) by (nonlinear_arith)
                    requires
                        w == 0,
                ;
            }
        }
        let x = k % w;
        let y = k / w;
        proof {
            vstd::arithmetic::div_mod::lemma_fundamental_div_mod(k as int, w as int);
            assert(y < h) by (nonlinear_arith)
                requires
                    k == w * y + x,
                    k < w * h,
                    x >= 0,
                    w > 0,
            ;
            assert(k == y * w + x) by (nonlinear_arith)
                requires
                    k == w * y + x,
            ;
        }
        let ghost before = contours@.map_values(|c: Vec<(u32, u32)>| c@);
        if mask[k] == 1 && !visited[k] && boundary(mask, w, h, x, y) {
            match trace_contour(mask, w, h, x, y, &mut visited) {
                Some(c) => {
                    contours.push(c);
                    assert(contours@.map_values(|c: Vec<(u32, u32)>| c@) =~= before.push(
                        contours@[contours@.len() - 1]@,
                    ));
                },
                None => {},
            }
        }
        k = k + 1;
    }
    contours
}

/// Whether `pt` is a foreground pixel of the image.
pub open spec fn is_foreground_point(mask: Seq<u8>, w: int, h: int, pt: (u32, u32)) -> bool {
    pt.0 < w && pt.1 < h && mask[pt.1 * w + pt.0] == 1
}

/// Whether every point of `c` is a foreground pixel of the image.
pub open spec fn all_foreground(mask: Seq<u8>, w: int, h: int, c: Seq<(u32, u32)>) -> bool {
    forall|k: int| 0 <= k < c.len() ==> is_foreground_point(mask, w, h, #[trigger] c[k])
}

proof fn lemma_trace_from_foreground(
    mask: Seq<u8>,
    w: int,
    h: int,
    sx: int,
    sy: int,
    x: int,
    y: int,
    dir: int,
    steps: int,
    max: int,
    contour: Seq<(u32, u32)>,
    visited: Seq<bool>,
)
    requires
        0 <= w <= u32::MAX,
        0 <= h <= u32::MAX,
        0 <= x < w,
        0 <= y < h,
        mask[y * w + x] == 1,
        all_foreground(mask, w, h, contour),
    ensures
        all_foreground(mask, w, h, trace_from(mask, w, h, sx, sy, x, y, dir, steps, max, contour, visited).0),
    decreases max - steps,
{
    let (c, v) = visit(contour, visited, w, x, y);
    assert(all_foreground(mask, w, h, c)) by {
        if !visited[y * w + x] {
            assert forall|k: int| 0 <= k < c.len() implies is_foreground_point(mask, w, h, #[trigger] c[k]) by {
                if k < contour.len() {
                    assert(c[k] == contour[k]);
                }
            }
        }
    }
    match first_turn(mask, w, h, x, y, dir, 0) {
        None => {},
        Some(i) => {
            let nd = (dir + i) % 8;
            let nx = x + dir_dx(nd);
            let ny = y + dir_dy(nd);
            if (nx == sx && ny == sy && c.len() > 2) || steps + 1 > max || steps < 0 {
            } else {
                lemma_first_turn(mask, w, h, x, y, dir, 0, i);
                lemma_trace_from_foreground(mask, w, h, sx, sy, nx, ny, (nd + 5) % 8, steps + 1, max, c, v);
            }
        },
    }
}

proof fn lemma_scan_foreground(mask: Seq<u8>, w: int, h: int, k: int)
    requires
        0 <= w <= u32::MAX,
        0 <= h <= u32::MAX,
        0 <= k <= w * h,
    ensures
        forall|j: int| 0 <= j < scan_contours(mask, w, h, k).0.len() ==> all_foreground(mask, w, h, #[trigger] scan_contours(mask, w, h, k).0[j]),
    decreases k,
{
    if k > 0 {
        lemma_scan_foreground(mask, w, h, k - 1);
        let (cs, vis) = scan_contours(mask, w, h, k - 1);
        let p = k - 1;
        if w == 0 {
            assert(w * h == 0) by (nonlinear_arith)
                requires
                    w == 0,
            ;
        }
        let x = p % w;
        let y = p / w;
        vstd::arithmetic::div_mod::lemma_fundamental_div_mod(p, w);
        assert(0 <= x < w) by {
            vstd::arithmetic::div_mod::lemma_mod_bound(p, w);
        }
        assert(0 <= y < h) by (nonlinear_arith)
            requires
                p == w * y + x,
                0 <= p < w * h,
                0 <= x < w,
        ;
        assert(y * w + x == p) by (nonlinear_arith)
            requires
                p == w * y + x,
        ;
        if mask[p] == 1 && !vis[p] && is_boundary(mask, w, h, x, y) {
            lemma_trace_from_foreground(mask, w, h, x, y, x, y, 0, 0, w * h, Seq::empty(), vis);
            let (c, vis2) = traced(mask, w, h, x, y, vis);
            if c.len() >= 3 {
                assert forall|j: int| 0 <= j < cs.push(c).len() implies all_foreground(mask, w, h, #[trigger] cs.push(c)[j]) by {
                    if j < cs.len() {
                        assert(cs.push(c)[j] == cs[j]);
                    }
                }
            }
        }
    }
}

/// Every contour point is a foreground pixel inside the image.
pub proof fn lemma_contours_are_foreground(mask: Seq<u8>, w: int, h: int)
    requires
        0 <= w <= u32::MAX,
        0 <= h <= u32::MAX,
    ensures
        forall|j: int| 0 <= j < contours_of(mask, w, h).len() ==> all_foreground(mask, w, h, #[trigger] contours_of(mask, w, h)[j]),
{
    assert(0 <= w * h) by (nonlinear_arith)
        requires
            0 <= w,
            0 <= h,
    ;
    lemma_scan_foreground(mask, w, h, w * h);
}


/// The row-major index of contour point `p` on an image `w` pixels wide.
pub open spec fn point_index(p: (u32, u32), w: int) -> int {
    p.1 as int * w + p.0 as int
}

/// What a trace keeps true of the points `c` it has collected and the
/// visited marks `v`, starting from the marks `v0`: each point is a
/// foreground pixel of the image that was unvisited and is now visited, no
/// point comes twice, and the marks changed only at the points.
pub open spec fn trace_record(mask: Seq<u8>, w: int, h: int, v0: Seq<bool>, c: Seq<(u32, u32)>, v: Seq<bool>) -> bool {
    &&& v.len() == v0.len()
    &&& forall|k: int|
        0 <= k < c.len() ==> {
            let p = #[trigger] c[k];
            &&& (p.0 as int) < w
            &&& (p.1 as int) < h
            &&& v[point_index(p, w)]
            &&& !v0[point_index(p, w)]
            &&& mask[point_index(p, w)] == 1
        }
    &&& forall|k1: int, k2: int| 0 <= k1 < k2 < c.len() ==> #[trigger] c[k1] != #[trigger] c[k2]
    &&& forall|i: int|
        0 <= i < v.len() && #[trigger] v[i] != v0[i] ==> exists|k: int| 0 <= k < c.len() && point_index(#[trigger] c[k], w) == i
}

proof fn lemma_index_below(x: int, y: int, w: int, h: int)
    requires
        0 <= x < w,
        0 <= y < h,
    ensures
        0 <= y * w + x < w * h,
{
    assert(0 <= y * w + x < w * h) by (nonlinear_arith)
        requires
            0 <= x < w,
            0 <= y < h,
    ;
}

proof fn lemma_trace_from_record(
    mask: Seq<u8>,
    w: int,
    h: int,
    sx: int,
    sy: int,
    x: int,
    y: int,
    dir: int,
    steps: int,
    max: int,
    contour: Seq<(u32, u32)>,
    visited: Seq<bool>,
    v0: Seq<bool>,
)
    requires
        0 <= w <= u32::MAX,
        0 <= h <= u32::MAX,
        w * h <= mask.len(),
        v0.len() == mask.len(),
        0 <= x < w,
        0 <= y < h,
        mask[y * w + x] == 1,
        0 <= steps <= max,
        contour.len() <= steps,
        trace_record(mask, w, h, v0, contour, visited),
    ensures
        trace_record(
            mask,
            w,
            h,
            v0,
            trace_from(mask, w, h, sx, sy, x, y, dir, steps, max, contour, visited).0,
            trace_from(mask, w, h, sx, sy, x, y, dir, steps, max, contour, visited).1,
        ),
        trace_from(mask, w, h, sx, sy, x, y, dir, steps, max, contour, visited).0.len() <= max + 1,
        contour.is_prefix_of(trace_from(mask, w, h, sx, sy, x, y, dir, steps, max, contour, visited).0),
    decreases max - steps,
{
    lemma_index_below(x, y, w, h);
    let idx = y * w + x;
    let (c, v) = visit(contour, visited, w, x, y);
    let pt = (x as u32, y as u32);
    assert(point_index(pt, w) == idx);
    if !visited[idx] {
        if v0[idx] {
            assert(visited[idx] != v0[idx]);
            let k = choose|k: int| 0 <= k < contour.len() && point_index(#[trigger] contour[k], w) == idx;
            assert(visited[point_index(contour[k], w)]);
        }
        assert forall|k: int| 0 <= k < c.len() implies {
            let p = #[trigger] c[k];
            &&& (p.0 as int) < w
            &&& (p.1 as int) < h
            &&& v[point_index(p, w)]
            &&& !v0[point_index(p, w)]
            &&& mask[point_index(p, w)] == 1
        } by {
            if k < contour.len() {
                assert(c[k] == contour[k]);
                lemma_index_below(c[k].0 as int, c[k].1 as int, w, h);
            } else {
                assert(c[k] == pt);
            }
        }
        assert forall|k1: int, k2: int| 0 <= k1 < k2 < c.len() implies #[trigger] c[k1] != #[trigger] c[k2] by {
            if k2 == contour.len() {
                assert(c[k1] == contour[k1]);
                assert(visited[point_index(contour[k1], w)]);
            } else {
                assert(c[k1] == contour[k1] && c[k2] == contour[k2]);
            }
        }
        assert forall|i: int| 0 <= i < v.len() && #[trigger] v[i] != v0[i] implies exists|k: int|
            0 <= k < c.len() && point_index(#[trigger] c[k], w) == i by {
            if i == idx {
                assert(c[contour.len() as int] == pt);
            } else {
                assert(visited[i] != v0[i]);
                let k = choose|k: int| 0 <= k < contour.len() && point_index(#[trigger] contour[k], w) == i;
                assert(c[k] == contour[k]);
            }
        }
    }
    assert(trace_record(mask, w, h, v0, c, v));
    assert(contour.is_prefix_of(c));
    match first_turn(mask, w, h, x, y, dir, 0) {
        None => {},
        Some(i) => {
            let nd = (dir + i) % 8;
            let nx = x + dir_dx(nd);
            let ny = y + dir_dy(nd);
            if (nx == sx && ny == sy && c.len() > 2) || steps + 1 > max || steps < 0 {
            } else {
                lemma_first_turn_foreground(mask, w, h, x, y, dir, 0);
                lemma_trace_from_record(mask, w, h, sx, sy, nx, ny, (nd + 5) % 8, steps + 1, max, c, v, v0);
                let r = trace_from(mask, w, h, sx, sy, nx, ny, (nd + 5) % 8, steps + 1, max, c, v).0;
                assert(contour.is_prefix_of(r)) by {
                    assert forall|k: int| 0 <= k < contour.len() implies contour[k] == r[k] by {
                        assert(c[k] == contour[k]);
                    }
                }
            }
        },
    }
}

proof fn lemma_first_turn_foreground(mask: Seq<u8>, w: int, h: int, x: int, y: int, dir: int, from: int)
    requires
        first_turn(mask, w, h, x, y, dir, from) is Some,
    ensures
        fg_neighbor(mask, w, h, x, y, (dir + first_turn(mask, w, h, x, y, dir, from)->0) % 8),
    decreases 8 - from,
{
    if 0 <= from < 8 && !fg_neighbor(mask, w, h, x, y, (dir + from) % 8) {
        lemma_first_turn_foreground(mask, w, h, x, y, dir, from + 1);
    }
}

/// What a trace does to the visited marks: with `P` the points of its
/// contour, the marks change only at `P`, each pixel of `P` is a foreground
/// pixel of the image that was unvisited and is now marked, no pixel comes
/// twice, and the start pixel comes first when it was unvisited. The trace
/// visits at most `w * h + 1` pixels.
pub proof fn lemma_trace_marks_its_contour(mask: Seq<u8>, w: int, h: int, sx: int, sy: int, v0: Seq<bool>)
    requires
        0 <= w <= u32::MAX,
        0 <= h <= u32::MAX,
        w * h <= mask.len(),
        v0.len() == mask.len(),
        0 <= sx < w,
        0 <= sy < h,
        mask[sy * w + sx] == 1,
    ensures
        trace_record(mask, w, h, v0, traced(mask, w, h, sx, sy, v0).0, traced(mask, w, h, sx, sy, v0).1),
        traced(mask, w, h, sx, sy, v0).0.len() <= w * h + 1,
        !v0[sy * w + sx] ==> traced(mask, w, h, sx, sy, v0).0.len() > 0 && traced(mask, w, h, sx, sy, v0).0[0]
            == (sx as u32, sy as u32),
{
    assert(0 <= w * h) by (nonlinear_arith)
        requires
            0 <= w,
            0 <= h,
    ;
    assert(trace_record(mask, w, h, v0, Seq::empty(), v0));
    lemma_trace_from_record(mask, w, h, sx, sy, sx, sy, 0, 0, w * h, Seq::empty(), v0, v0);
    if !v0[sy * w + sx] {
        let (c, v) = visit(Seq::empty(), v0, w, sx, sy);
        assert(c =~= seq![(sx as u32, sy as u32)]);
        lemma_trace_from_prefix(mask, w, h, sx, sy, sx, sy, 0, 0, w * h, Seq::empty(), v0);
        let r = traced(mask, w, h, sx, sy, v0).0;
        assert(c.is_prefix_of(r));
        assert(r[0] == c[0]);
    }
}

/// A trace keeps the points of its first visit in front.
proof fn lemma_trace_from_prefix(
    mask: Seq<u8>,
    w: int,
    h: int,
    sx: int,
    sy: int,
    x: int,
    y: int,
    dir: int,
    steps: int,
    max: int,
    contour: Seq<(u32, u32)>,
    visited: Seq<bool>,
)
    ensures
        visit(contour, visited, w, x, y).0.is_prefix_of(
            trace_from(mask, w, h, sx, sy, x, y, dir, steps, max, contour, visited).0,
        ),
    decreases max - steps,
{
    let (c, v) = visit(contour, visited, w, x, y);
    match first_turn(mask, w, h, x, y, dir, 0) {
        None => {},
        Some(i) => {
            let nd = (dir + i) % 8;
            let nx = x + dir_dx(nd);
            let ny = y + dir_dy(nd);
            if (nx == sx && ny == sy && c.len() > 2) || steps + 1 > max || steps < 0 {
            } else {
                lemma_trace_from_prefix(mask, w, h, sx, sy, nx, ny, (nd + 5) % 8, steps + 1, max, c, v);
                let r = trace_from(mask, w, h, sx, sy, nx, ny, (nd + 5) % 8, steps + 1, max, c, v).0;
                let c2 = visit(c, v, w, nx, ny).0;
                assert(c.is_prefix_of(c2));
                assert forall|k: int| 0 <= k < c.len() implies c[k] == r[k] by {
                    assert(c[k] == c2[k]);
                }
            }
        },
    }
}

/// Whether no point of `c` comes twice.
pub open spec fn no_repeated_point(c: Seq<(u32, u32)>) -> bool {
    forall|k1: int, k2: int| 0 <= k1 < k2 < c.len() ==> #[trigger] c[k1] != #[trigger] c[k2]
}

proof fn lemma_scan_rings(mask: Seq<u8>, w: int, h: int, k: int)
    requires
        0 <= w <= u32::MAX,
        0 <= h <= u32::MAX,
        w * h <= mask.len(),
        0 <= k <= w * h,
    ensures
        scan_contours(mask, w, h, k).1.len() == mask.len(),
        forall|j: int|
            0 <= j < scan_contours(mask, w, h, k).0.len() ==> #[trigger] scan_contours(mask, w, h, k).0[j].len() >= 3
                && no_repeated_point(scan_contours(mask, w, h, k).0[j]),
    decreases k,
{
    if k > 0 {
        lemma_scan_rings(mask, w, h, k - 1);
        let (cs, vis) = scan_contours(mask, w, h, k - 1);
        let p = k - 1;
        if w == 0 {
            assert(w * h == 0) by (nonlinear_arith)
                requires
                    w == 0,
            ;
        }
        let x = p % w;
        let y = p / w;
        vstd::arithmetic::div_mod::lemma_fundamental_div_mod(p, w);
        assert(0 <= x < w) by {
            vstd::arithmetic::div_mod::lemma_mod_bound(p, w);
        }
        assert(0 <= y < h) by (nonlinear_arith)
            requires
                p == w * y + x,
                0 <= p < w * h,
                0 <= x < w,
        ;
        assert(y * w + x == p) by (nonlinear_arith)
            requires
                p == w * y + x,
        ;
        if mask[p] == 1 && !vis[p] && is_boundary(mask, w, h, x, y) {
            lemma_trace_marks_its_contour(mask, w, h, x, y, vis);
            let (c, vis2) = traced(mask, w, h, x, y, vis);
            assert(no_repeated_point(c));
            if c.len() >= 3 {
                assert forall|j: int| 0 <= j < cs.push(c).len() implies #[trigger] cs.push(c)[j].len() >= 3
                    && no_repeated_point(cs.push(c)[j]) by {
                    if j < cs.len() {
                        assert(cs.push(c)[j] == cs[j]);
                    }
                }
            }
        }
    }
}

/// Every contour of a mask is a ring of at least three points, none of
/// which comes twice.
pub proof fn lemma_contours_are_rings(mask: Seq<u8>, w: int, h: int)
    requires
        0 <= w <= u32::MAX,
        0 <= h <= u32::MAX,
        w * h <= mask.len(),
    ensures
        forall|j: int|
            0 <= j < contours_of(mask, w, h).len() ==> #[trigger] contours_of(mask, w, h)[j].len() >= 3
                && no_repeated_point(contours_of(mask, w, h)[j]),
{
    assert(0 <= w * h) by (nonlinear_arith)
        requires
            0 <= w,
            0 <= h,
    ;
    lemma_scan_rings(mask, w, h, w * h);
}
} // verus!
