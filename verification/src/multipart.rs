//! How a large file is cut into the parts of a multipart upload.
//!
//! Every part but the last is `PART_SIZE` bytes; the last holds what is
//! left. Part `i` starts at byte `i * PART_SIZE` and is sent as part number
//! `i + 1`.

use vstd::prelude::*;

verus! {

/// The size of a full part: 100 MiB.
pub const PART_SIZE: usize = 104857600usize;

/// The number of parts of a file of `size` bytes: its size divided by the
/// part size, rounded up.
pub open spec fn part_count(size: nat) -> nat {
    ((size + PART_SIZE - 1) / PART_SIZE as int) as nat
}

/// The length of part `i` of a file of `size` bytes: a full part, except
/// that the last part of a file whose size is not a multiple of the part
/// size holds the remainder.
pub open spec fn part_len(size: nat, i: nat) -> nat {
    if i + 1 == part_count(size) && size % (PART_SIZE as nat) != 0 {
        size % (PART_SIZE as nat)
    } else {
        PART_SIZE as nat
    }
}

/// One part of a multipart upload.
#[derive(Clone, Copy, Debug, PartialEq, Eq, Structural)]
pub struct UploadPart {
    /// The part's number for the storage service, from 1.
    pub part_number: usize,
    /// Where the part starts in the file.
    pub offset: u64,
    /// How many bytes it holds.
    pub length: usize,
}

/// The number of parts of a file of `size` bytes.
pub fn part_count_of(size: usize) -> (n: usize)
    ensures
        n == part_count(size as nat),
{
    let n = size / PART_SIZE;
    if size % PART_SIZE == 0 {
        n
    } else {
        n + 1
    }
}

/// The length of part `i` of a file of `size` bytes.
pub fn part_len_of(size: usize, i: usize) -> (len: usize)
    ensures
        len == part_len(size as nat, i as nat),
{
    let n = part_count_of(size);
    if i < n && i + 1 == n && size % PART_SIZE != 0 {
        size % PART_SIZE
    } else {
        PART_SIZE
    }
}

/// The parts of a file of `size` bytes, in order.
pub fn plan_parts(size: usize) -> (parts: Vec<UploadPart>)
    ensures
        parts.len() == part_count(size as nat),
        forall|i: int|
            0 <= i < parts.len() ==> {
                let p = #[trigger] parts@[i];
                &&& p.part_number == i + 1
                &&& p.offset == i * PART_SIZE
                &&& p.length == part_len(size as nat, i as nat)
            },
{
    let n = part_count_of(size);
    let mut parts: Vec<UploadPart> = Vec::new();
    let mut i: usize = 0;
    while i < n
        invariant
            i <= n,
            n == part_count(size as nat),
            parts.len() == i,
            forall|j: int|
                0 <= j < i ==> {
                    let p = #[trigger] parts@[j];
                    &&& p.part_number == j + 1
                    &&& p.offset == j * PART_SIZE
                    &&& p.length == part_len(size as nat, j as nat)
                },
        decreases n - i,
    {
        proof {
            assert(i * PART_SIZE <= size) by (nonlinear_arith)
                requires
                    i < n,
                    n == (size + PART_SIZE - 1) / PART_SIZE as int,
                    PART_SIZE == 104857600,
            ;
        }
        let offset: u64 = (i as u64) * (PART_SIZE as u64);
        let length = part_len_of(size, i);
        parts.push(UploadPart { part_number: i + 1, offset, length });
        i = i + 1;
    }
    parts
}

/// The parts tile the file: every part holds between one byte and a full
/// part, each part starts where the one before it ends, and the last part
/// ends at the end of the file. An empty file has no parts.
pub proof fn lemma_parts_tile_the_file(size: nat)
    ensures
        size == 0 <==> part_count(size) == 0,
        forall|i: nat| i < part_count(size) ==> 1 <= #[trigger] part_len(size, i) <= PART_SIZE,
        forall|i: nat| i + 1 < part_count(size) ==> #[trigger] part_len(size, i) == PART_SIZE,
        part_count(size) > 0 ==> (part_count(size) - 1) * PART_SIZE + part_len(
            size,
            (part_count(size) - 1) as nat,
        ) == size,
{
    let p: int = PART_SIZE as int;
    let n: int = part_count(size) as int;
    assert(p == 104857600);
    let q: int = size as int / p;
    let r: int = size as int % p;
    assert(size == q * p + r && 0 <= r < p) by (nonlinear_arith)
        requires
            p == 104857600,
            q == size as int / p,
            r == size as int % p,
    ;
    assert(n == if r == 0 { q } else { q + 1 }) by (nonlinear_arith)
        requires
            p == 104857600,
            size == q * p + r,
            0 <= r < p,
            n == (size + p - 1) / p,
    ;
    assert forall|i: nat| i < part_count(size) implies 1 <= #[trigger] part_len(size, i) <= PART_SIZE by {
    }
    if n > 0 {
        assert((n - 1) * p + part_len(size, (n - 1) as nat) == size) by (nonlinear_arith)
            requires
                size == q * p + r,
                0 <= r < p,
                n == if r == 0 { q } else { q + 1 },
                n > 0,
                part_len(size, (n - 1) as nat) == if r != 0 { r } else { p },
        ;
    }
}

} // verus!
