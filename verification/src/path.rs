//! File names and stems of `/`-separated paths, as `std::path::Path`
//! finds them on Unix.
//!
//! A path's components are its `/`-separated segments, leaving out empty
//! segments and `.`; the file name is the last component unless that is
//! `..`. The stem is the file name up to its last `.`, or all of it when
//! it has no `.` other than a leading one.

use vstd::prelude::*;
use crate::text::{chars_of, string_from_chars};

verus! {

/// Whether a segment is a component: not empty and not `.`.
pub open spec fn is_component(seg: Seq<char>) -> bool {
    seg.len() > 0 && seg != seq!['.']
}

/// Scanning the first `n` characters of `p`: the segment in progress and
/// the last component completed before it.
pub open spec fn scan_segments(p: Seq<char>, n: int) -> (Seq<char>, Option<Seq<char>>)
    decreases n,
{
    if n <= 0 {
        (Seq::empty(), None)
    } else {
        let (cur, last) = scan_segments(p, n - 1);
        if p[n - 1] == '/' {
            (Seq::empty(), if is_component(cur) { Some(cur) } else { last })
        } else {
            (cur.push(p[n - 1]), last)
        }
    }
}

/// The last component of `p`, if it has one.
pub open spec fn last_component(p: Seq<char>) -> Option<Seq<char>> {
    let (cur, last) = scan_segments(p, p.len() as int);
    if is_component(cur) {
        Some(cur)
    } else {
        last
    }
}

/// The file name of `p`: its last component, unless that is `..`.
pub open spec fn file_name(p: Seq<char>) -> Option<Seq<char>> {
    match last_component(p) {
        Some(c) => if c == seq!['.', '.'] {
            None
        } else {
            Some(c)
        },
        None => None,
    }
}

/// Whether `i` is the position of the last `.` in `name`.
pub open spec fn is_last_dot(name: Seq<char>, i: int) -> bool {
    0 <= i < name.len() && name[i] == '.' && forall|k: int| i < k < name.len() ==> name[k] != '.'
}

/// The stem of a file name: up to its last `.`, unless that `.` is the
/// first character or there is none.
pub open spec fn stem_of_name(name: Seq<char>) -> Seq<char> {
    if exists|i: int| 0 < i && #[trigger] is_last_dot(name, i) {
        name.take(choose|i: int| 0 < i && #[trigger] is_last_dot(name, i))
    } else {
        name
    }
}

/// The file stem of `p`, if it has a file name.
pub open spec fn file_stem(p: Seq<char>) -> Option<Seq<char>> {
    match file_name(p) {
        Some(n) => Some(stem_of_name(n)),
        None => None,
    }
}

/// The name of the sample an image file holds: the file stem of its path,
/// or the whole path when it has none.
pub open spec fn sample_name(p: Seq<char>) -> Seq<char> {
    match file_stem(p) {
        Some(s) => s,
        None => p,
    }
}

/// Computes the file name of a path.
pub fn file_name_of(p: &Vec<char>) -> (r: Option<Vec<char>>)
    ensures
        r matches Some(v) ==> file_name(p@) == Some(v@),
        r is None ==> file_name(p@) is None,
{
    let mut cur: Vec<char> = Vec::new();
    let mut last: Option<Vec<char>> = None;
    let mut i: usize = 0;
    while i < p.len()
        invariant
            i <= p.len(),
            (cur@, match last {
                Some(v) => Some(v@),
                None => None,
            }) == scan_segments(p@, i as int),
        decreases p.len() - i,
    {
        let c = p[i];
        if c == '/' {
            if component(&cur) {
                last = Some(cur);
            }
            cur = Vec::new();
        } else {
            cur.push(c);
        }
        i = i + 1;
    }
    let comp = if component(&cur) {
        Some(cur)
    } else {
        last
    };
    match comp {
        Some(c) => {
            if c.len() == 2 && c[0] == '.' && c[1] == '.' {
                assert(c@ =~= seq!['.', '.']);
                None
            } else {
                assert(c@ != seq!['.', '.']);
                Some(c)
            }
        },
        None => None,
    }
}

/// Decides whether a segment is a component.
fn component(seg: &Vec<char>) -> (b: bool)
    ensures
        b == is_component(seg@),
{
    if seg.len() == 0 {
        false
    } else if seg.len() == 1 && seg[0] == '.' {
        assert(seg@ =~= seq!['.']);
        false
    } else {
        assert(seg@ != seq!['.']);
        true
    }
}

/// Computes the stem of a file name.
pub fn stem_of(name: &Vec<char>) -> (r: Vec<char>)
    ensures
        r@ == stem_of_name(name@),
{
    let mut i: usize = name.len();
    while i > 0
        invariant
            i <= name.len(),
            forall|k: int| i <= k < name.len() ==> name@[k] != '.',
        decreases i,
    {
        if name[i - 1] == '.' {
            let j = i - 1;
            assert(is_last_dot(name@, j as int));
            if j == 0 {
                assert forall|k: int| 0 < k implies !is_last_dot(name@, k) by {
                    if is_last_dot(name@, k) && k != 0 {
                        assert(name@[k] == '.');
                    }
                }
                return name.clone();
            }
            let mut out: Vec<char> = Vec::new();
            let mut k: usize = 0;
            while k < j
                invariant
                    k <= j,
                    j < name.len(),
                    out@ == name@.take(k as int),
                decreases j - k,
            {
                out.push(name[k]);
                assert(name@.take(k as int).push(name@[k as int]) =~= name@.take(k + 1));
                k = k + 1;
            }
            proof {
                let w = choose|i: int| 0 < i && #[trigger] is_last_dot(name@, i);
                assert(0 < w && is_last_dot(name@, w));
                if w < j {
                    assert(name@[j as int] == '.');
                }
                if w > j {
                    assert(name@[w] == '.');
                }
                assert(w == j);
            }
            return out;
        }
        i = i - 1;
    }
    assert forall|k: int| 0 < k implies !is_last_dot(name@, k) by {
        if is_last_dot(name@, k) {
            assert(name@[k] == '.');
        }
    }
    name.clone()
}

/// The file stem of a path.
pub fn file_stem_of(p: &Vec<char>) -> (r: Option<Vec<char>>)
    ensures
        r matches Some(v) ==> file_stem(p@) == Some(v@),
        r is None ==> file_stem(p@) is None,
{
    match file_name_of(p) {
        Some(n) => Some(stem_of(&n)),
        None => None,
    }
}

/// The sample name for an image file: its file stem, or the whole name
/// when it has none.
pub fn sample_name_from_filename(filename: &str) -> (r: String)
    ensures
        r@ == sample_name(filename@),
{
    let p = chars_of(filename);
    match file_stem_of(&p) {
        Some(s) => string_from_chars(&s),
        None => string_from_chars(&p),
    }
}

} // verus!
