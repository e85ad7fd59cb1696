//! Decoding of COCO run-length encoded masks.
//!
//! Runs are in column-major order and alternate between background and
//! foreground, starting with background. Decoded masks are row-major, one
//! byte per pixel (1 = foreground).

use vstd::prelude::*;
use crate::coco::types::{CocoCompressedRle, CocoRle};
use crate::error::Error;
use crate::text::{decimal_text, push_char, push_decimal};
use vstd::string::StringSliceAdditionalSpecFns;
use vstd::utf8::encode_utf8;

verus! {

/// The sum of the run lengths.
pub open spec fn counts_total(counts: Seq<u32>) -> nat
    decreases counts.len(),
{
    if counts.len() == 0 {
        0
    } else {
        counts[0] as nat + counts_total(counts.drop_first())
    }
}

/// The pixel value of a run: 1 for foreground, 0 for background.
pub open spec fn run_value(foreground: bool) -> u8 {
    if foreground {
        1
    } else {
        0
    }
}

/// The pixels described by `counts` in order, the first run having the
/// given kind and the kinds alternating after it.
pub open spec fn run_pixels(counts: Seq<u32>, foreground: bool) -> Seq<u8>
    decreases counts.len(),
{
    if counts.len() == 0 {
        Seq::empty()
    } else {
        Seq::new(counts[0] as nat, |_i: int| run_value(foreground)) + run_pixels(
            counts.drop_first(),
            !foreground,
        )
    }
}

/// The row-major mask of a `height` x `width` image whose column-major
/// pixels are `column_major`.
pub open spec fn row_major(column_major: Seq<u8>, height: nat, width: nat) -> Seq<u8> {
    Seq::new(height * width, |k: int| column_major[(k % (width as int)) * (height as int) + k / (width as int)])
}

/// The message reported when the run lengths do not cover the image.
pub open spec fn rle_size_message(sum: nat, height: nat, width: nat) -> Seq<char> {
    "RLE counts sum "@ + decimal_text(sum) + " does not match image size "@ + decimal_text(width)
        + "x"@ + decimal_text(height) + " = "@ + decimal_text(width * height)
}

/// Whether `r` is the outcome of decoding the runs `counts` for an image of
/// `size == [height, width]`: the error when the runs do not sum to the
/// pixel count, else the row-major mask with the height and width.
pub open spec fn rle_decode_outcome(r: Result<(Vec<u8>, u32, u32), Error>, counts: Seq<u32>, size: [u32; 2]) -> bool {
    let height = size[0] as nat;
    let width = size[1] as nat;
    if counts_total(counts) == height * width {
        r matches Ok((mask, h, w)) && h == size[0] && w == size[1] && mask@ == row_major(
            run_pixels(counts, false),
            height,
            width,
        )
    } else {
        r matches Err(Error::CocoError(m)) && m@ == rle_size_message(counts_total(counts), height, width)
    }
}

proof fn lemma_counts_total_push(s: Seq<u32>, c: u32)
    ensures
        counts_total(s.push(c)) == counts_total(s) + c,
    decreases s.len(),
{
    if s.len() > 0 {
        assert(s.push(c).drop_first() =~= s.drop_first().push(c));
        lemma_counts_total_push(s.drop_first(), c);
        assert(s.push(c)[0] == s[0]);
    } else {
        assert(s.push(c).drop_first() =~= Seq::<u32>::empty());
        assert(counts_total(s.push(c).drop_first()) == 0);
        assert(s.push(c)[0] == c);
    }
}

proof fn lemma_run_pixels_push(s: Seq<u32>, c: u32, foreground: bool)
    ensures
        run_pixels(s.push(c), foreground) =~= run_pixels(s, foreground) + Seq::new(
            c as nat,
            |_i: int| run_value(foreground != (s.len() % 2 == 1)),
        ),
    decreases s.len(),
{
    let tail = Seq::new(c as nat, |_i: int| run_value(foreground != (s.len() % 2 == 1)));
    if s.len() > 0 {
        let head = Seq::new(s[0] as nat, |_i: int| run_value(foreground));
        assert(s.push(c).drop_first() =~= s.drop_first().push(c));
        assert(s.push(c)[0] == s[0]);
        lemma_run_pixels_push(s.drop_first(), c, !foreground);
        assert(Seq::new(
            c as nat,
            |_i: int| run_value(!foreground != (s.drop_first().len() % 2 == 1)),
        ) =~= tail);
        assert(run_pixels(s.push(c), foreground) == head + run_pixels(
            s.drop_first().push(c),
            !foreground,
        ));
        assert(run_pixels(s, foreground) == head + run_pixels(s.drop_first(), !foreground));
        assert(head + (run_pixels(s.drop_first(), !foreground) + tail) =~= (head + run_pixels(
            s.drop_first(),
            !foreground,
        )) + tail);
    } else {
        assert(s.push(c).drop_first() =~= Seq::<u32>::empty());
        assert(s.push(c)[0] == c);
        assert(run_pixels(s.push(c).drop_first(), !foreground) =~= Seq::<u8>::empty());
        assert(run_pixels(s, foreground) =~= Seq::<u8>::empty());
    }
}

proof fn lemma_counts_total_take(s: Seq<u32>, i: int)
    requires
        0 <= i <= s.len(),
    ensures
        counts_total(s.take(i)) <= counts_total(s),
    decreases s.len() - i,
{
    if i < s.len() {
        lemma_counts_total_take(s, i + 1);
        assert(s.take(i + 1) =~= s.take(i).push(s[i]));
        lemma_counts_total_push(s.take(i), s[i]);
    } else {
        assert(s.take(i) =~= s);
    }
}

/// Decode uncompressed RLE to a binary mask in row-major order, returned
/// with the height and width.
pub fn decode_rle(rle: &CocoRle) -> (r: Result<(Vec<u8>, u32, u32), Error>)
    requires
        rle.size[0] * rle.size[1] <= usize::MAX,
        counts_total(rle.counts@) <= u64::MAX,
    ensures
        rle_decode_outcome(r, rle.counts@, rle.size),
{
    let height = rle.size[0];
    let width = rle.size[1];
    assert((width as usize) * (height as usize) <= usize::MAX) by (nonlinear_arith)
        requires
            height * width <= usize::MAX,
    ;
    let total: usize = (width as usize) * (height as usize);
    assert(total == height * width) by (nonlinear_arith)
        requires
            total == width * height,
    ;
    let ghost counts = rle.counts@;

    let mut sum: u64 = 0;
    let mut i: usize = 0;
    while i < rle.counts.len()
        invariant
            i <= rle.counts.len(),
            counts == rle.counts@,
            counts_total(counts) <= u64::MAX,
            sum == counts_total(counts.take(i as int)),
        decreases rle.counts.len() - i,
    {
        proof {
            assert(counts.take(i + 1) =~= counts.take(i as int).push(counts[i as int]));
            lemma_counts_total_push(counts.take(i as int), counts[i as int]);
            lemma_counts_total_take(counts, i + 1);
        }
        sum = sum + rle.counts[i] as u64;
        i = i + 1;
    }
    assert(counts.take(counts.len() as int) =~= counts);
    if sum != total as u64 {
        let mut m = String::from_str("RLE counts sum ");
        push_decimal(&mut m, sum);
        m.append(" does not match image size ");
        push_decimal(&mut m, width as u64);
        m.append("x");
        push_decimal(&mut m, height as u64);
        m.append(" = ");
        push_decimal(&mut m, total as u64);
        assert(width * height == total);
        return Err(Error::CocoError(m));
    }

    let mut column_major: Vec<u8> = Vec::with_capacity(total);
    let mut run: usize = 0;
    while run < rle.counts.len()
        invariant
            run <= rle.counts.len(),
            counts == rle.counts@,
            column_major@ == run_pixels(counts.take(run as int), false),
        decreases rle.counts.len() - run,
    {
        let value: u8 = if run % 2 == 1 { 1 } else { 0 };
        let count = rle.counts[run];
        let ghost before = column_major@;
        let mut j: u32 = 0;
        while j < count
            invariant
                j <= count,
                column_major@ == before + Seq::new(j as nat, |_i: int| value),
            decreases count - j,
        {
            column_major.push(value);
            assert(before + Seq::new((j + 1) as nat, |_i: int| value) =~= (before + Seq::new(
                j as nat,
                |_i: int| value,
            )).push(value));
            j = j + 1;
        }
        proof {
            assert(counts.take(run + 1) =~= counts.take(run as int).push(count));
            lemma_run_pixels_push(counts.take(run as int), count, false);
            assert(value == run_value(false != (run % 2 == 1)));
            assert(Seq::new(count as nat, |_i: int| value) =~= Seq::new(
                count as nat,
                |_i: int| run_value(false != (counts.take(run as int).len() % 2 == 1)),
            ));
        }
        run = run + 1;
    }
    assert(counts.take(counts.len() as int) =~= counts);
    proof {
        lemma_run_pixels_len(counts, false);
    }
    assert(column_major@.len() == total);

    let mut mask: Vec<u8> = Vec::with_capacity(total);
    let mut k: usize = 0;
    while k < total
        invariant
            k <= total,
            total == height * width,
            column_major@.len() == total,
            mask@ =~= row_major(column_major@, height as nat, width as nat).take(k as int),
        decreases total - k,
    {
        proof {
            lemma_index_in_bounds(k as int, height as int, width as int);
        }
        let col = k % (width as usize);
        let row = k / (width as usize);
        let idx = col * (height as usize) + row;
        mask.push(column_major[idx]);
        assert(row_major(column_major@, height as nat, width as nat).take(k + 1) =~= row_major(
            column_major@,
            height as nat,
            width as nat,
        ).take(k as int).push(column_major@[idx as int]));
        k = k + 1;
    }
    assert(row_major(column_major@, height as nat, width as nat).take(total as int) =~= row_major(
        column_major@,
        height as nat,
        width as nat,
    ));
    Ok((mask, height, width))
}

proof fn lemma_run_pixels_len(counts: Seq<u32>, foreground: bool)
    ensures
        run_pixels(counts, foreground).len() == counts_total(counts),
    decreases counts.len(),
{
    if counts.len() > 0 {
        lemma_run_pixels_len(counts.drop_first(), !foreground);
    }
}

proof fn lemma_index_in_bounds(k: int, height: int, width: int)
    requires
        0 <= k < height * width,
        height >= 0,
        width >= 0,
    ensures
        width > 0,
        0 <= (k % width) * height + k / width < height * width,
{
    if width == 0 {
        assert(height * width == 0) by (nonlinear_arith)
            requires
                width == 0,
        ;
    }
    assert(width > 0);
    let q = k / width;
    let r = k % width;
    vstd::arithmetic::div_mod::lemma_fundamental_div_mod(k, width);
    assert(0 <= r < width) by {
        vstd::arithmetic::div_mod::lemma_mod_bound(k, width);
    }
    assert(0 <= q < height) by (nonlinear_arith)
        requires
            k == width * q + r,
            0 <= r < width,
            0 <= k < height * width,
            width > 0,
    ;
    assert(0 <= r * height + q < height * width) by (nonlinear_arith)
        requires
            0 <= r < width,
            0 <= q < height,
    ;
}

/// `32` raised to the power `n`.
pub open spec fn pow32(n: nat) -> nat
    decreases n,
{
    if n == 0 {
        1
    } else {
        32 * pow32((n - 1) as nat)
    }
}

/// Whether a byte may stand in a compressed count: `'0'` and above.
pub open spec fn leb_char_ok(b: u8) -> bool {
    b >= 48
}

/// The five bits of payload a character carries.
pub open spec fn leb_digit(b: u8) -> int {
    (b - 48) % 32
}

/// Whether a character is followed by another of the same group: its
/// value `b - 48` has the continuation bit (32) set.
pub open spec fn leb_continues(b: u8) -> bool {
    b - 48 >= 32
}

/// Whether every byte is a valid character.
pub open spec fn leb_all_ok(bytes: Seq<u8>) -> bool {
    forall|i: int| 0 <= i < bytes.len() ==> leb_char_ok(#[trigger] bytes[i])
}

/// The position of the first invalid byte (meaningful when there is one).
pub open spec fn leb_first_bad(bytes: Seq<u8>) -> int {
    choose|i: int|
        0 <= i < bytes.len() && !leb_char_ok(#[trigger] bytes[i]) && forall|k: int|
            0 <= k < i ==> leb_char_ok(#[trigger] bytes[k])
}

/// Whether thirteen continuation characters start at `p` and are followed
/// by a further character, with no invalid character up to that one.
pub open spec fn leb_long_run_at(bytes: Seq<u8>, p: int) -> bool {
    &&& 0 <= p
    &&& p + 13 < bytes.len()
    &&& forall|k: int| p <= k < p + 13 ==> leb_continues(#[trigger] bytes[k])
    &&& forall|k: int| 0 <= k <= p + 13 ==> leb_char_ok(#[trigger] bytes[k])
}

/// Whether decoding reaches a fourteenth character of one group; the shift
/// for that character would exceed the width of the accumulator.
pub open spec fn leb_group_too_long(bytes: Seq<u8>) -> bool {
    exists|p: int| #[trigger] leb_long_run_at(bytes, p)
}

/// The number of characters of the group that starts at `start`: up to
/// and including the first character that does not continue, or to the end.
pub open spec fn leb_group_len(bytes: Seq<u8>, start: int) -> nat
    decreases bytes.len() - start,
{
    if start < 0 || start >= bytes.len() {
        0
    } else if !leb_continues(bytes[start]) {
        1
    } else {
        1 + leb_group_len(bytes, start + 1)
    }
}

/// The unsigned number formed by the `n` characters at `start`, least
/// significant digit first, in base 32.
pub open spec fn leb_raw(bytes: Seq<u8>, start: int, n: nat) -> int
    decreases n,
{
    if n == 0 {
        0
    } else {
        leb_raw(bytes, start, (n - 1) as nat) + leb_digit(bytes[start + n - 1]) * pow32(
            (n - 1) as nat,
        )
    }
}

/// `x` reduced to a 64-bit two's-complement value.
pub open spec fn wrap_i64(x: int) -> int {
    let m = x % 0x1_0000_0000_0000_0000;
    if m >= 0x8000_0000_0000_0000 {
        m - 0x1_0000_0000_0000_0000
    } else {
        m
    }
}

/// The signed value of a group of `n` characters with unsigned value
/// `raw`: groups shorter than 32 bits are sign-extended from their top
/// bit; longer ones keep the low 64 bits.
pub open spec fn leb_signed(raw: int, n: nat) -> int {
    if 5 * n < 32 {
        if raw >= pow32(n) / 2 {
            raw - pow32(n)
        } else {
            raw
        }
    } else {
        wrap_i64(raw)
    }
}

/// The signed values of the groups from `start` to the end.
pub open spec fn leb_values_from(bytes: Seq<u8>, start: int) -> Seq<int>
    decreases bytes.len() - start,
{
    if start < 0 || start >= bytes.len() {
        Seq::empty()
    } else {
        let n = leb_group_len(bytes, start);
        proof {
            lemma_group_len_bounds(bytes, start);
        }
        seq![leb_signed(leb_raw(bytes, start, n), n)] + leb_values_from(bytes, start + n)
    }
}

/// The signed values of all the groups.
pub open spec fn leb_values(bytes: Seq<u8>) -> Seq<int> {
    leb_values_from(bytes, 0)
}

/// A count as stored: kept at zero when negative and to its low 32 bits.
pub open spec fn fix_count(x: int) -> u32 {
    ((if x > 0 {
        x
    } else {
        0
    }) % 0x1_0000_0000) as u32
}

/// Count `j` of the values (the pycocotools rule): the first three values
/// are counts themselves; from the fourth on, a value is added to the count
/// two places before it.
pub open spec fn count_at(vals: Seq<int>, j: int) -> u32
    decreases j,
{
    if j < 0 {
        0
    } else if j >= 3 {
        fix_count(vals[j] + count_at(vals, j - 2))
    } else {
        fix_count(vals[j])
    }
}

/// The counts that the values of compressed counts stand for.
pub open spec fn counts_from_values(vals: Seq<int>) -> Seq<u32> {
    Seq::new(vals.len(), |j: int| count_at(vals, j))
}

/// The message for an invalid character.
pub open spec fn leb_bad_char_message(b: u8) -> Seq<char> {
    "Invalid LEB128 character: "@ + seq![b as char]
}

/// Whether `r` is the outcome of decoding the compressed counts `bytes`.
pub open spec fn leb_decode_outcome(r: Result<Vec<u32>, Error>, bytes: Seq<u8>) -> bool {
    if leb_all_ok(bytes) {
        r matches Ok(v) && v@ == counts_from_values(leb_values(bytes))
    } else {
        r matches Err(Error::CocoError(m)) && m@ == leb_bad_char_message(
            bytes[leb_first_bad(bytes)],
        )
    }
}

proof fn lemma_pow32_mono(a: nat, b: nat)
    requires
        a <= b,
    ensures
        1 <= pow32(a) <= pow32(b),
    decreases b,
{
    if b > a {
        lemma_pow32_mono(a, (b - 1) as nat);
    } else if b > 0 {
        lemma_pow32_mono(0, (b - 1) as nat);
    }
}

/// A group starting inside the bytes has at least one character and ends
/// within them.
pub proof fn lemma_group_len_bounds(bytes: Seq<u8>, start: int)
    requires
        0 <= start < bytes.len(),
    ensures
        1 <= leb_group_len(bytes, start) <= bytes.len() - start,
    decreases bytes.len() - start,
{
    if start + 1 < bytes.len() && leb_continues(bytes[start]) {
        lemma_group_len_bounds(bytes, start + 1);
    } else if start + 1 == bytes.len() {
        assert(leb_group_len(bytes, start + 1) == 0);
    }
}

proof fn lemma_group_len(bytes: Seq<u8>, start: int, n: nat)
    requires
        0 <= start,
        n >= 1,
        start + n <= bytes.len(),
        forall|k: int| start <= k < start + n - 1 ==> leb_continues(#[trigger] bytes[k]),
        start + n == bytes.len() || !leb_continues(bytes[start + n - 1]),
    ensures
        leb_group_len(bytes, start) == n,
    decreases n,
{
    if n > 1 {
        assert(leb_continues(bytes[start]));
        lemma_group_len(bytes, start + 1, (n - 1) as nat);
    } else if start + 1 == bytes.len() {
        assert(leb_group_len(bytes, start + 1) == 0);
    }
}

/// The `n` characters the pycocotools encoder writes for a value `x` that
/// takes `n` characters: the base-32 digits of `x` in `n`-digit two's
/// complement, least significant first, each but the last carrying the
/// continuation bit, offset by `'0'`.
pub open spec fn leb_group_of(x: int, n: nat) -> Seq<u8> {
    let v = x % (pow32(n) as int);
    Seq::new(
        n,
        |k: int|
            (48 + (v / (pow32(k as nat) as int)) % 32 + if k < n - 1 {
                32int
            } else {
                0int
            }) as u8,
    )
}

proof fn lemma_raw_of_digits(b: Seq<u8>, v: int, m: nat)
    requires
        0 <= v,
        m <= b.len(),
        forall|k: int| 0 <= k < b.len() ==> #[trigger] leb_digit(b[k]) == (v / (pow32(k as nat) as int)) % 32,
    ensures
        leb_raw(b, 0, m) == v % (pow32(m) as int),
    decreases m,
{
    if m == 0 {
        assert(v % 1 == 0);
    } else {
        let p = pow32((m - 1) as nat) as int;
        lemma_raw_of_digits(b, v, (m - 1) as nat);
        lemma_pow32_mono(0, (m - 1) as nat);
        assert(leb_digit(b[m - 1]) == (v / p) % 32);
        assert(pow32(m) as int == p * 32) by (nonlinear_arith)
            requires
                pow32(m) == 32 * pow32((m - 1) as nat),
                p == pow32((m - 1) as nat),
        ;
        vstd::arithmetic::div_mod::lemma_mod_breakdown(v, p, 32);
        assert(leb_raw(b, 0, m) == leb_raw(b, 0, (m - 1) as nat) + leb_digit(b[m - 1]) * p);
        assert(p * ((v / p) % 32) == ((v / p) % 32) * p) by (nonlinear_arith);
    }
}

proof fn lemma_group_of_facts(x: int, n: nat)
    requires
        1 <= n <= 6,
        -(pow32(n) / 2) <= x < pow32(n) / 2,
    ensures
        leb_group_of(x, n).len() == n,
        forall|k: int| 0 <= k < n ==> leb_char_ok(#[trigger] leb_group_of(x, n)[k]),
        forall|k: int| 0 <= k < n - 1 ==> leb_continues(#[trigger] leb_group_of(x, n)[k]),
        !leb_continues(leb_group_of(x, n)[n - 1]),
        leb_signed(leb_raw(leb_group_of(x, n), 0, n), n) == x,
{
    let b = leb_group_of(x, n);
    let m = pow32(n) as int;
    lemma_pow32_mono(1, n);
    assert(pow32(0) == 1);
    assert(pow32(1) == 32);
    let v = x % m;
    vstd::arithmetic::div_mod::lemma_mod_bound(x, m);
    assert forall|k: int| 0 <= k < n implies {
        &&& leb_char_ok(#[trigger] b[k])
        &&& leb_digit(b[k]) == (v / (pow32(k as nat) as int)) % 32
        &&& (leb_continues(b[k]) <==> k < n - 1)
    } by {
        lemma_pow32_mono(0, k as nat);
        let d = (v / (pow32(k as nat) as int)) % 32;
        vstd::arithmetic::div_mod::lemma_mod_bound(v / (pow32(k as nat) as int), 32);
        if k < n - 1 {
            assert(b[k] == (48 + d + 32) as u8);
            assert((d + 32) % 32 == d);
        } else {
            assert(b[k] == (48 + d) as u8);
            assert(d % 32 == d);
        }
    }
    lemma_raw_of_digits(b, v, n);
    vstd::arithmetic::div_mod::lemma_small_mod(v as nat, m as nat);
    assert(leb_raw(b, 0, n) == v);
    if x >= 0 {
        vstd::arithmetic::div_mod::lemma_small_mod(x as nat, m as nat);
        assert(v == x);
    } else {
        vstd::arithmetic::div_mod::lemma_mod_add_multiples_vanish(x, m);
        vstd::arithmetic::div_mod::lemma_small_mod((m + x) as nat, m as nat);
        assert(v == x + m);
    }
    assert(5 * n < 32);
}

/// LEB128 decoding inverts the pycocotools encoder: the `n` characters it
/// writes for a value `x` (for `n` up to six, so that `x` lies within
/// `n` five-bit digits of two's complement) are valid and decode to the one
/// value `x`, negative values included.
pub proof fn lemma_leb_group_decodes(x: int, n: nat)
    requires
        1 <= n <= 6,
        -(pow32(n) / 2) <= x < pow32(n) / 2,
    ensures
        leb_all_ok(leb_group_of(x, n)),
        leb_values(leb_group_of(x, n)) == seq![x],
{
    let b = leb_group_of(x, n);
    lemma_group_of_facts(x, n);
    lemma_group_len(b, 0, n);
    assert(leb_values_from(b, n as int) =~= Seq::<int>::empty());
    assert(leb_values(b) =~= seq![leb_signed(leb_raw(b, 0, n), n)] + leb_values_from(b, n as int));
}

proof fn lemma_group_len_shift(b: Seq<u8>, rest: Seq<u8>, start: int)
    requires
        0 <= start,
    ensures
        leb_group_len(b + rest, b.len() + start) == leb_group_len(rest, start),
    decreases rest.len() - start,
{
    if start < rest.len() {
        assert((b + rest)[b.len() + start] == rest[start]);
        lemma_group_len_shift(b, rest, start + 1);
    }
}

proof fn lemma_raw_shift(b: Seq<u8>, rest: Seq<u8>, start: int, n: nat)
    requires
        0 <= start,
        start + n <= rest.len(),
    ensures
        leb_raw(b + rest, b.len() + start, n) == leb_raw(rest, start, n),
    decreases n,
{
    if n > 0 {
        lemma_raw_shift(b, rest, start, (n - 1) as nat);
        assert((b + rest)[b.len() + start + n - 1] == rest[start + n - 1]);
    }
}

proof fn lemma_raw_prefix(b: Seq<u8>, rest: Seq<u8>, n: nat)
    requires
        n <= b.len(),
    ensures
        leb_raw(b + rest, 0, n) == leb_raw(b, 0, n),
    decreases n,
{
    if n > 0 {
        lemma_raw_prefix(b, rest, (n - 1) as nat);
        assert((b + rest)[n - 1] == b[n - 1]);
    }
}

proof fn lemma_values_shift(b: Seq<u8>, rest: Seq<u8>, start: int)
    requires
        0 <= start,
    ensures
        leb_values_from(b + rest, b.len() + start) == leb_values_from(rest, start),
    decreases rest.len() - start,
{
    if start < rest.len() {
        lemma_group_len_shift(b, rest, start);
        let n = leb_group_len(rest, start);
        lemma_group_len_bounds(rest, start);
        lemma_raw_shift(b, rest, start, n);
        lemma_values_shift(b, rest, start + n);
    }
}

/// A group the pycocotools encoder writes for `x`, followed by any further
/// characters, decodes to `x` followed by what those characters decode to:
/// so the encoding of a list of values decodes to that list.
pub proof fn lemma_leb_group_then_rest(x: int, n: nat, rest: Seq<u8>)
    requires
        1 <= n <= 6,
        -(pow32(n) / 2) <= x < pow32(n) / 2,
    ensures
        leb_values(leb_group_of(x, n) + rest) == seq![x] + leb_values(rest),
{
    let b = leb_group_of(x, n);
    lemma_group_of_facts(x, n);
    let c = b + rest;
    assert forall|k: int| 0 <= k < n - 1 implies leb_continues(#[trigger] c[k]) by {
        assert(c[k] == b[k]);
    }
    assert(c[n - 1] == b[n - 1]);
    lemma_group_len(c, 0, n);
    lemma_raw_prefix(b, rest, n);
    lemma_values_shift(b, rest, 0);
    assert(leb_values(c) =~= seq![leb_signed(leb_raw(c, 0, n), n)] + leb_values_from(c, n as int));
}

/// The values the pycocotools encoder writes for counts `c`: the first
/// three counts themselves, then each count less the count two places
/// before it.
pub open spec fn count_deltas(c: Seq<u32>) -> Seq<int> {
    Seq::new(c.len(), |j: int| if j >= 3 { c[j] - c[j - 2] } else { c[j] as int })
}

proof fn lemma_count_at_deltas(c: Seq<u32>, j: int)
    requires
        0 <= j < c.len(),
    ensures
        count_at(count_deltas(c), j) == c[j],
    decreases j,
{
    let d = count_deltas(c);
    if j >= 3 {
        lemma_count_at_deltas(c, j - 2);
        assert(d[j] + count_at(d, j - 2) == c[j]);
    }
    assert((c[j] as int) % 0x1_0000_0000 == c[j]);
}

/// The counts rule inverts the pycocotools encoder: the values it writes
/// for any counts give those counts back.
pub proof fn lemma_counts_from_deltas(c: Seq<u32>)
    ensures
        counts_from_values(count_deltas(c)) == c,
{
    assert forall|j: int| 0 <= j < c.len() implies #[trigger] counts_from_values(count_deltas(c))[j] == c[j] by {
        lemma_count_at_deltas(c, j);
    }
    assert(counts_from_values(count_deltas(c)) =~= c);
}

/// The error for an invalid character in compressed counts.
fn bad_char_error(b: u8) -> (e: Error)
    requires
        b < 48,
    ensures
        e matches Error::CocoError(m) && m@ == leb_bad_char_message(b),
{
    let mut m = String::from_str("Invalid LEB128 character: ");
    push_char(&mut m, b as char);
    proof {
        reveal_strlit("Invalid LEB128 character: ");
    }
    Error::CocoError(m)
}

/// Decode the LEB128-style compressed counts of a COCO RLE string: groups
/// of five-bit digits, least significant first, each a signed value; from
/// the fourth value on, a value is added to the count two places before it
/// (as pycocotools encodes them).
pub fn decode_leb128(s: &str) -> (r: Result<Vec<u32>, Error>)
    requires
        !leb_group_too_long(s.spec_bytes()),
    ensures
        leb_decode_outcome(r, s.spec_bytes()),
{
    let bytes = s.as_bytes();
    let ghost bs = s.spec_bytes();
    let mut values: Vec<i64> = Vec::new();
    let mut i: usize = 0;
    while i < bytes.len()
        invariant
            bytes@ == bs,
            bs == s.spec_bytes(),
            i <= bs.len(),
            !leb_group_too_long(bs),
            forall|k: int| 0 <= k < i ==> leb_char_ok(#[trigger] bs[k]),
            values@.map_values(|v: i64| v as int) + leb_values_from(bs, i as int) == leb_values(bs),
        decreases bs.len() - i,
    {
        let start = i;
        let mut raw: u128 = 0;
        let mut mult: u128 = 1;
        let mut n: usize = 0;
        let mut more = true;
        while more && i < bytes.len()
            invariant
                bytes@ == bs,
                bs == s.spec_bytes(),
                !leb_group_too_long(bs),
                start < bs.len(),
                start <= i <= bs.len(),
                n == i - start,
                n <= 13,
                mult == pow32(n as nat),
                raw == leb_raw(bs, start as int, n as nat),
                raw < mult,
                more ==> forall|k: int| start <= k < i ==> leb_continues(#[trigger] bs[k]),
                !more ==> n >= 1 && !leb_continues(bs[i - 1]) && forall|k: int|
                    start <= k < i - 1 ==> leb_continues(#[trigger] bs[k]),
                forall|k: int| 0 <= k < i ==> leb_char_ok(#[trigger] bs[k]),
            decreases bs.len() - i,
        {
            let byte = bytes[i];
            if byte < 48 {
                proof {
                    assert(!leb_char_ok(bs[i as int]));
                    let j = leb_first_bad(bs);
                    assert(0 <= j < bs.len() && !leb_char_ok(bs[j]) && forall|k: int|
                        0 <= k < j ==> leb_char_ok(#[trigger] bs[k])) by {
                        assert(forall|k: int| 0 <= k < i ==> leb_char_ok(#[trigger] bs[k]));
                    }
                    if j < i {
                        assert(leb_char_ok(bs[j]));
                    }
                    if j > i {
                        assert(leb_char_ok(bs[i as int]));
                    }
                    assert(j == i);
                    assert(!leb_all_ok(bs));
                }
                return Err(bad_char_error(byte));
            }
            if n == 13 {
                proof {
                    assert(leb_long_run_at(bs, start as int)) by {
                        let p = start as int;
                        assert(forall|k: int| p <= k < p + 13 ==> leb_continues(#[trigger] bs[k]));
                        assert(forall|k: int| 0 <= k <= p + 13 ==> leb_char_ok(#[trigger] bs[k]))
                            by {
                            assert(leb_char_ok(bs[i as int]));
                        }
                    }
                }
            }
            let digit: u128 = ((byte - 48) % 32) as u128;
            proof {
                lemma_pow32_mono(n as nat, 12);
                assert(pow32(12) == 0x1000_0000_0000_0000) by {
                    reveal_with_fuel(pow32, 13);
                }
                assert(digit * mult <= 31 * mult) by (nonlinear_arith)
                    requires
                        digit <= 31,
                ;
            }
            raw = raw + digit * mult;
            mult = mult * 32;
            n = n + 1;
            more = byte >= 80;
            i = i + 1;
        }
        proof {
            lemma_group_len(bs, start as int, n as nat);
            lemma_pow32_mono(n as nat, 13);
            assert(pow32(13) == 0x2_0000_0000_0000_0000) by {
                reveal_with_fuel(pow32, 14);
            }
        }
        let value: i128 = if n <= 6 {
            proof {
                lemma_pow32_mono(n as nat, 6);
                assert(pow32(6) == 0x4000_0000) by {
                    reveal_with_fuel(pow32, 7);
                }
            }
            if raw >= mult / 2 {
                raw as i128 - mult as i128
            } else {
                raw as i128
            }
        } else {
            let low = raw % 0x1_0000_0000_0000_0000;
            if low >= 0x8000_0000_0000_0000 {
                low as i128 - 0x1_0000_0000_0000_0000
            } else {
                low as i128
            }
        };
        assert(value == leb_signed(leb_raw(bs, start as int, n as nat), n as nat));
        let ghost before = values@.map_values(|v: i64| v as int);
        values.push(value as i64);
        proof {
            assert(values@.map_values(|v: i64| v as int) =~= before.push(value as int));
            assert(leb_values_from(bs, start as int) == seq![value as int] + leb_values_from(
                bs,
                i as int,
            ));
            assert(before.push(value as int) + leb_values_from(bs, i as int) =~= before + (seq![
                value as int,
            ] + leb_values_from(bs, i as int)));
        }
    }
    proof {
        assert(leb_values_from(bs, i as int) =~= Seq::<int>::empty());
        assert(values@.map_values(|v: i64| v as int) =~= leb_values(bs));
        assert(leb_all_ok(bs));
    }
    let ghost vals = leb_values(bs);
    let mut result: Vec<u32> = Vec::with_capacity(values.len());
    let mut j: usize = 0;
    while j < values.len()
        invariant
            j <= values.len(),
            values@.map_values(|v: i64| v as int) == vals,
            result@ == counts_from_values(vals).take(j as int),
        decreases values.len() - j,
    {
        proof {
            assert(vals[j as int] == values@[j as int]);
        }
        let x: i128 = if j >= 3 {
            proof {
                assert(result@[j - 2] == count_at(vals, j - 2));
            }
            values[j] as i128 + result[j - 2] as i128
        } else {
            values[j] as i128
        };
        let clamped: u128 = if x > 0 {
            x as u128
        } else {
            0
        };
        let count = (clamped % 0x1_0000_0000) as u32;
        assert(count == count_at(vals, j as int));
        result.push(count);
        proof {
            assert(counts_from_values(vals).take(j + 1) =~= counts_from_values(vals).take(
                j as int,
            ).push(count));
        }
        j = j + 1;
    }
    proof {
        assert(counts_from_values(vals).take(values.len() as int) =~= counts_from_values(vals));
    }
    Ok(result)
}

/// The run lengths that compressed counts stand for.
pub open spec fn compressed_counts(bytes: Seq<u8>) -> Seq<u32> {
    counts_from_values(leb_values(bytes))
}

/// Decode compressed RLE (LEB128 counts) to a binary mask in row-major
/// order, returned with the height and width.
pub fn decode_compressed_rle(compressed: &CocoCompressedRle) -> (r: Result<(Vec<u8>, u32, u32), Error>)
    requires
        !leb_group_too_long(encode_utf8(compressed.counts@)),
        leb_all_ok(encode_utf8(compressed.counts@)) ==> counts_total(
            compressed_counts(encode_utf8(compressed.counts@)),
        ) <= u64::MAX,
        compressed.size[0] * compressed.size[1] <= usize::MAX,
    ensures
        ({
            let bytes = encode_utf8(compressed.counts@);
            if leb_all_ok(bytes) {
                rle_decode_outcome(r, compressed_counts(bytes), compressed.size)
            } else {
                r matches Err(Error::CocoError(m)) && m@ == leb_bad_char_message(
                    bytes[leb_first_bad(bytes)],
                )
            }
        }),
{
    let counts = match decode_leb128(compressed.counts.as_str()) {
        Ok(counts) => counts,
        Err(e) => {
            return Err(e);
        },
    };
    let rle = CocoRle { counts, size: compressed.size };
    decode_rle(&rle)
}

proof fn lemma_run_pixels_binary(counts: Seq<u32>, foreground: bool)
    ensures
        forall|k: int| 0 <= k < run_pixels(counts, foreground).len() ==> #[trigger] run_pixels(counts, foreground)[k] <= 1,
    decreases counts.len(),
{
    if counts.len() > 0 {
        lemma_run_pixels_binary(counts.drop_first(), !foreground);
        let head = Seq::new(counts[0] as nat, |_i: int| run_value(foreground));
        let tail = run_pixels(counts.drop_first(), !foreground);
        assert forall|k: int| 0 <= k < (head + tail).len() implies #[trigger] (head + tail)[k] <= 1 by {
            if k >= head.len() {
                assert((head + tail)[k] == tail[k - head.len()]);
            }
        }
    }
}

/// A decoded mask is binary and has one value per pixel: when the runs
/// cover a `height` x `width` image, the row-major mask has
/// `height * width` values, each 0 or 1.
pub proof fn lemma_decoded_mask_is_binary(counts: Seq<u32>, height: nat, width: nat)
    requires
        counts_total(counts) == height * width,
    ensures
        row_major(run_pixels(counts, false), height, width).len() == height * width,
        forall|k: int| 0 <= k < height * width ==> #[trigger] row_major(run_pixels(counts, false), height, width)[k] <= 1,
{
    let pixels = run_pixels(counts, false);
    lemma_run_pixels_len(counts, false);
    lemma_run_pixels_binary(counts, false);
    assert forall|k: int| 0 <= k < height * width implies #[trigger] row_major(pixels, height, width)[k] <= 1 by {
        lemma_index_in_bounds(k, height as int, width as int);
        let idx = (k % (width as int)) * (height as int) + k / (width as int);
        assert(pixels[idx] <= 1);
    }
}

/// Where run `k` starts among the column-major pixels: the sum of the
/// first `k` counts.
pub open spec fn run_start(counts: Seq<u32>, k: int) -> nat {
    counts_total(counts.take(k))
}

proof fn lemma_run_start_step(counts: Seq<u32>, k: int)
    requires
        0 <= k < counts.len(),
    ensures
        run_start(counts, k + 1) == run_start(counts, k) + counts[k],
{
    assert(counts.take(k + 1) =~= counts.take(k).push(counts[k]));
    lemma_counts_total_push(counts.take(k), counts[k]);
}

proof fn lemma_run_start_mono(counts: Seq<u32>, a: int, b: int)
    requires
        0 <= a <= b <= counts.len(),
    ensures
        run_start(counts, a) <= run_start(counts, b),
    decreases b - a,
{
    if a < b {
        lemma_run_start_mono(counts, a, b - 1);
        lemma_run_start_step(counts, b - 1);
    }
}

/// Every pixel lies in a run, and has that run's value: background for
/// runs `0, 2, 4, ...`, foreground for runs `1, 3, 5, ...`.
proof fn lemma_pixel_in_run(counts: Seq<u32>, j: int)
    requires
        0 <= j < counts_total(counts),
    ensures
        exists|k: int|
            0 <= k < counts.len() && #[trigger] run_start(counts, k) <= j < run_start(counts, k + 1)
                && run_pixels(counts, false)[j] == run_value(k % 2 == 1),
    decreases counts.len(),
{
    if counts.len() == 0 {
        assert(counts_total(counts) == 0);
    } else {
        let s = counts.drop_last();
        let c = counts.last();
        assert(counts =~= s.push(c));
        lemma_counts_total_push(s, c);
        lemma_run_pixels_push(s, c, false);
        lemma_run_pixels_len(s, false);
        let head = run_pixels(s, false);
        if j < counts_total(s) {
            lemma_pixel_in_run(s, j);
            let k = choose|k: int|
                0 <= k < s.len() && #[trigger] run_start(s, k) <= j < run_start(s, k + 1)
                    && run_pixels(s, false)[j] == run_value(k % 2 == 1);
            assert(counts.take(k) =~= s.take(k));
            assert(counts.take(k + 1) =~= s.take(k + 1));
            assert(run_start(counts, k) == run_start(s, k));
            assert(run_start(counts, k + 1) == run_start(s, k + 1));
            assert(run_pixels(counts, false)[j] == head[j]);
            assert(run_pixels(counts, false)[j] == run_value(k % 2 == 1));
        } else {
            let k = s.len() as int;
            assert(counts.take(k) =~= s);
            assert(counts.take(k + 1) =~= counts);
            assert(run_start(counts, k) == counts_total(s));
            assert(run_start(counts, k + 1) == counts_total(counts));
            let tail = Seq::new(c as nat, |_i: int| run_value(false != (s.len() % 2 == 1)));
            assert(run_pixels(counts, false) == head + tail);
            assert((head + tail)[j] == tail[j - head.len()]);
            assert(run_pixels(counts, false)[j] == run_value(k % 2 == 1));
        }
    }
}

/// The decoded mask follows the runs: pixel `(r, c)` of a `height` x
/// `width` image is foreground exactly when its column-major position
/// `c * height + r` lies in an odd-numbered run (runs alternate, starting
/// with background).
pub proof fn lemma_decoded_pixel_follows_runs(counts: Seq<u32>, height: nat, width: nat, r: int, c: int)
    requires
        counts_total(counts) == height * width,
        0 <= r < height,
        0 <= c < width,
    ensures
        (row_major(run_pixels(counts, false), height, width)[r * width + c] == 1) <==> exists|k: int|
            0 <= k < counts.len() && k % 2 == 1 && run_start(counts, k) <= c * height + r < #[trigger] run_start(
                counts,
                k + 1,
            ),
{
    let h = height as int;
    let w = width as int;
    let x = r * w + c;
    let j = c * h + r;
    assert(0 <= x < h * w && 0 <= j < h * w) by (nonlinear_arith)
        requires
            0 <= r < h,
            0 <= c < w,
            x == r * w + c,
            j == c * h + r,
    ;
    vstd::arithmetic::div_mod::lemma_fundamental_div_mod_converse(x, w, r, c);
    assert(row_major(run_pixels(counts, false), height, width)[x] == run_pixels(counts, false)[j]);
    lemma_pixel_in_run(counts, j);
    let k = choose|k: int|
        0 <= k < counts.len() && #[trigger] run_start(counts, k) <= j < run_start(counts, k + 1)
            && run_pixels(counts, false)[j] == run_value(k % 2 == 1);
    assert forall|k2: int|
        0 <= k2 < counts.len() && k2 % 2 == 1 && run_start(counts, k2) <= j < #[trigger] run_start(
            counts,
            k2 + 1,
        ) implies run_pixels(counts, false)[j] == 1 by {
        if k2 < k {
            lemma_run_start_mono(counts, k2 + 1, k);
        } else if k < k2 {
            lemma_run_start_mono(counts, k + 1, k2);
        }
    }
}

/// The number of foreground (value 1) pixels of a mask.
pub open spec fn foreground_count(mask: Seq<u8>) -> nat
    decreases mask.len(),
{
    if mask.len() == 0 {
        0
    } else {
        foreground_count(mask.drop_last()) + if mask.last() == 1 {
            1nat
        } else {
            0nat
        }
    }
}

/// Counts the foreground pixels of a mask.
pub fn count_foreground(mask: &Vec<u8>) -> (n: usize)
    ensures
        n == foreground_count(mask@),
{
    let mut n: usize = 0;
    let mut i: usize = 0;
    while i < mask.len()
        invariant
            i <= mask.len(),
            n == foreground_count(mask@.take(i as int)),
            n <= i,
        decreases mask.len() - i,
    {
        assert(mask@.take(i + 1).drop_last() =~= mask@.take(i as int));
        if mask[i] == 1 {
            n = n + 1;
        }
        i = i + 1;
    }
    assert(mask@.take(mask.len() as int) =~= mask@);
    n
}

/// The area in pixels of an uncompressed RLE segmentation: its number of
/// foreground pixels.
pub fn rle_area(rle: &CocoRle) -> (r: Result<usize, Error>)
    requires
        rle.size[0] * rle.size[1] <= usize::MAX,
        counts_total(rle.counts@) <= u64::MAX,
    ensures
        counts_total(rle.counts@) == rle.size[0] * rle.size[1] ==> (r matches Ok(n) && n
            == foreground_count(row_major(run_pixels(rle.counts@, false), rle.size[0] as nat, rle.size[1] as nat))),
        counts_total(rle.counts@) != rle.size[0] * rle.size[1] ==> (r matches Err(Error::CocoError(m))
            && m@ == rle_size_message(counts_total(rle.counts@), rle.size[0] as nat, rle.size[1] as nat)),
{
    match decode_rle(rle) {
        Ok((mask, _, _)) => Ok(count_foreground(&mask)),
        Err(e) => Err(e),
    }
}

} // verus!
