//! Hexadecimal encoding and decoding of `u64` values, with the exact
//! acceptance rules of `u64::from_str_radix(_, 16)`.

use vstd::prelude::*;
use crate::error::IntErrorKind;

verus! {

/// The value of `c` as a base-16 digit (either letter case), if it is one.
pub open spec fn hex_digit_value(c: char) -> Option<nat> {
    let u = c as u32;
    if 48 <= u <= 57 {
        Some((u - 48) as nat)
    } else if 97 <= u <= 102 {
        Some((u - 87) as nat)
    } else if 65 <= u <= 70 {
        Some((u - 55) as nat)
    } else {
        None
    }
}

/// One step of left-to-right digit accumulation, as `from_str_radix` does it:
/// an invalid digit is reported before an overflow at the same position.
pub open spec fn hex_step(acc: nat, c: char) -> Result<nat, IntErrorKind> {
    match hex_digit_value(c) {
        None => Err(IntErrorKind::InvalidDigit),
        Some(d) => if acc * 16 + d > u64::MAX {
            Err(IntErrorKind::PosOverflow)
        } else {
            Ok(acc * 16 + d)
        },
    }
}

/// Folds the digits of `digits` into `acc`, stopping at the first failure.
pub open spec fn hex_fold(digits: Seq<char>, acc: nat) -> Result<nat, IntErrorKind>
    decreases digits.len(),
{
    if digits.len() == 0 {
        Ok(acc)
    } else {
        match hex_step(acc, digits[0]) {
            Err(e) => Err(e),
            Ok(next) => hex_fold(digits.drop_first(), next),
        }
    }
}

/// What `u64::from_str_radix(s, 16)` returns for the characters `s`: an
/// optional leading `+`, then one or more hexadecimal digits.
pub open spec fn parse_hex_u64(s: Seq<char>) -> Result<u64, IntErrorKind> {
    if s.len() == 0 {
        Err(IntErrorKind::Empty)
    } else if s.len() == 1 && (s[0] == '+' || s[0] == '-') {
        Err(IntErrorKind::InvalidDigit)
    } else {
        let digits = if s[0] == '+' { s.drop_first() } else { s };
        match hex_fold(digits, 0) {
            Ok(v) => Ok(v as u64),
            Err(e) => Err(e),
        }
    }
}

/// The lower-case hexadecimal digit for `d` (`d < 16`).
pub open spec fn hex_char(d: nat) -> char {
    if d < 10 {
        ((d + 48) as u32) as char
    } else {
        ((d + 87) as u32) as char
    }
}

/// The lower-case hexadecimal text of `n`, without leading zeros
/// (`"0"` for zero), as `format!("{:x}", n)` writes it.
pub open spec fn hex_lower(n: nat) -> Seq<char>
    decreases n,
{
    if n < 16 {
        seq![hex_char(n)]
    } else {
        hex_lower(n / 16).push(hex_char(n % 16))
    }
}

proof fn lemma_hex_char_value(d: nat)
    requires
        d < 16,
    ensures
        hex_digit_value(hex_char(d)) == Some(d),
{
}

/// Folding a sequence extended by one character is one more step.
proof fn lemma_fold_push(s: Seq<char>, c: char, acc: nat)
    ensures
        hex_fold(s.push(c), acc) == (match hex_fold(s, acc) {
            Err(e) => Err(e),
            Ok(v) => hex_step(v, c),
        }),
    decreases s.len(),
{
    reveal_with_fuel(hex_fold, 2);
    if s.len() == 0 {
        assert(s.push(c).drop_first() =~= Seq::<char>::empty());
    } else {
        assert(s.push(c).drop_first() =~= s.drop_first().push(c));
        assert(s.push(c)[0] == s[0]);
        match hex_step(acc, s[0]) {
            Err(e) => {},
            Ok(next) => {
                lemma_fold_push(s.drop_first(), c, next);
            },
        }
    }
}

/// Every character of `hex_lower(n)` is a hexadecimal digit.
proof fn lemma_hex_lower_digits(n: nat)
    ensures
        hex_lower(n).len() >= 1,
        forall|i: int| 0 <= i < hex_lower(n).len() ==> hex_digit_value(#[trigger] hex_lower(n)[i]) is Some,
    decreases n,
{
    if n >= 16 {
        lemma_hex_lower_digits(n / 16);
        lemma_hex_char_value(n % 16);
        assert forall|i: int| 0 <= i < hex_lower(n).len() implies hex_digit_value(
            #[trigger] hex_lower(n)[i],
        ) is Some by {
            if i < hex_lower(n / 16).len() {
                assert(hex_lower(n)[i] == hex_lower(n / 16)[i]);
            }
        }
    } else {
        lemma_hex_char_value(n);
    }
}

/// Decoding the hexadecimal text of `n` gives back `n`.
pub proof fn lemma_hex_fold_of_hex_lower(n: nat)
    requires
        n <= u64::MAX,
    ensures
        hex_fold(hex_lower(n), 0) == Ok::<nat, IntErrorKind>(n),
    decreases n,
{
    reveal_with_fuel(hex_fold, 2);
    if n < 16 {
        lemma_hex_char_value(n);
        assert(hex_lower(n).drop_first() =~= Seq::<char>::empty());
    } else {
        let q = n / 16;
        let r = n % 16;
        assert(q * 16 + r == n) by (nonlinear_arith)
            requires
                q == n / 16,
                r == n % 16,
        ;
        lemma_hex_fold_of_hex_lower(q);
        lemma_fold_push(hex_lower(q), hex_char(r), 0);
        lemma_hex_char_value(r);
    }
}

/// Law: the text written for a value parses back to that value.
pub proof fn lemma_parse_hex_lower(v: u64)
    ensures
        parse_hex_u64(hex_lower(v as nat)) == Ok::<u64, IntErrorKind>(v),
{
    lemma_hex_lower_digits(v as nat);
    lemma_hex_fold_of_hex_lower(v as nat);
    let s = hex_lower(v as nat);
    assert(hex_digit_value(s[0]) is Some);
}

/// The digit value of `c`, if it is a hexadecimal digit.
pub fn hex_digit(c: char) -> (r: Option<u64>)
    ensures
        match hex_digit_value(c) {
            Some(d) => r == Some(d as u64),
            None => r is None,
        },
{
    let u = c as u32;
    if 48 <= u && u <= 57 {
        Some((u - 48) as u64)
    } else if 97 <= u && u <= 102 {
        Some((u - 87) as u64)
    } else if 65 <= u && u <= 70 {
        Some((u - 55) as u64)
    } else {
        None
    }
}

/// Parses `s` as an unsigned hexadecimal number with the rules of
/// `u64::from_str_radix(s, 16)`.
pub fn parse_hex(s: &Vec<char>) -> (r: Result<u64, IntErrorKind>)
    ensures
        r == parse_hex_u64(s@),
{
    if s.len() == 0 {
        return Err(IntErrorKind::Empty);
    }
    if s.len() == 1 && (s[0] == '+' || s[0] == '-') {
        return Err(IntErrorKind::InvalidDigit);
    }
    let start: usize = if s[0] == '+' { 1 } else { 0 };
    let ghost digits = if s@[0] == '+' { s@.drop_first() } else { s@ };
    assert(digits =~= s@.skip(start as int));
    let mut acc: u64 = 0;
    let mut i: usize = start;
    while i < s.len()
        invariant
            start <= i <= s.len(),
            digits == s@.skip(start as int),
            hex_fold(digits, 0) == hex_fold(s@.skip(i as int), acc as nat),
            parse_hex_u64(s@) == (match hex_fold(digits, 0) {
                Ok(v) => Ok(v as u64),
                Err(e) => Err(e),
            }),
        decreases s.len() - i,
    {
        let ghost rest = s@.skip(i as int);
        assert(rest[0] == s@[i as int]);
        assert(rest.drop_first() =~= s@.skip(i + 1));
        match hex_digit(s[i]) {
            None => {
                return Err(IntErrorKind::InvalidDigit);
            },
            Some(d) => {
                if acc > (u64::MAX - d) / 16 {
                    assert(acc * 16 + d > u64::MAX) by (nonlinear_arith)
                        requires
                            acc > (u64::MAX - d) / 16,
                            d < 16,
                    ;
                    return Err(IntErrorKind::PosOverflow);
                }
                assert(acc * 16 + d <= u64::MAX) by (nonlinear_arith)
                    requires
                        acc <= (u64::MAX - d) / 16,
                        d < 16,
                ;
                acc = acc * 16 + d;
            },
        }
        i = i + 1;
    }
    assert(s@.skip(i as int) =~= Seq::<char>::empty());
    Ok(acc)
}

/// The lower-case hexadecimal digit for `d`.
fn hex_char_of(d: u64) -> (c: char)
    requires
        d < 16,
    ensures
        c == hex_char(d as nat),
{
    if d < 10 {
        ((d + 48) as u8) as char
    } else {
        ((d + 87) as u8) as char
    }
}

/// Appends the lower-case hexadecimal text of `n` to `out`.
pub fn push_hex(out: &mut String, n: u64)
    ensures
        final(out)@ == old(out)@ + hex_lower(n as nat),
    decreases n,
{
    if n >= 16 {
        push_hex(out, n / 16);
    }
    crate::text::push_char(out, hex_char_of(n % 16));
    proof {
        if n >= 16 {
            assert(hex_lower(n as nat) == hex_lower((n / 16) as nat).push(hex_char((n % 16) as nat)));
        } else {
            assert(hex_lower(n as nat) == seq![hex_char(n as nat)]);
        }
    }
}

/// `c` with ASCII lower-case letters made upper-case.
pub open spec fn ascii_upper_char(c: char) -> char {
    if 'a' <= c <= 'z' {
        ((c as u32) - 32) as char
    } else {
        c
    }
}

proof fn lemma_fold_same_digits(s: Seq<char>, t: Seq<char>, acc: nat)
    requires
        s.len() == t.len(),
        forall|i: int| 0 <= i < s.len() ==> hex_digit_value(#[trigger] s[i]) == hex_digit_value(t[i]),
    ensures
        hex_fold(s, acc) == hex_fold(t, acc),
    decreases s.len(),
{
    if s.len() > 0 {
        assert(hex_digit_value(s[0]) == hex_digit_value(t[0]));
        match hex_step(acc, s[0]) {
            Err(e) => {},
            Ok(next) => {
                assert forall|i: int| 0 <= i < s.drop_first().len() implies hex_digit_value(
                    #[trigger] s.drop_first()[i],
                ) == hex_digit_value(t.drop_first()[i]) by {
                    assert(s.drop_first()[i] == s[i + 1]);
                    assert(t.drop_first()[i] == t[i + 1]);
                }
                lemma_fold_same_digits(s.drop_first(), t.drop_first(), next);
            },
        }
    }
}

/// Hexadecimal parsing ignores the case of letters: upper-casing the text
/// does not change what it parses to.
pub proof fn lemma_parse_hex_ignores_case(s: Seq<char>)
    ensures
        parse_hex_u64(s.map_values(|c: char| ascii_upper_char(c))) == parse_hex_u64(s),
{
    let u = s.map_values(|c: char| ascii_upper_char(c));
    if s.len() > 0 {
        let ds = if s[0] == '+' { s.drop_first() } else { s };
        let du = if u[0] == '+' { u.drop_first() } else { u };
        assert(u[0] == '+' <==> s[0] == '+');
        assert(u[0] == '-' <==> s[0] == '-');
        assert forall|i: int| 0 <= i < du.len() implies hex_digit_value(#[trigger] du[i])
            == hex_digit_value(ds[i]) by {
            if s[0] == '+' {
                assert(du[i] == u[i + 1]);
                assert(ds[i] == s[i + 1]);
            }
        }
        lemma_fold_same_digits(du, ds, 0);
    }
}

/// A leading `0` digit does not change the value: for a text that is not
/// empty and does not start with a sign, `"0" + s` parses as `s` does.
pub proof fn lemma_parse_hex_leading_zero(s: Seq<char>)
    requires
        s.len() > 0,
        s[0] != '+',
    ensures
        parse_hex_u64(seq!['0'] + s) == parse_hex_u64(s),
{
    let z = seq!['0'] + s;
    assert(z[0] == '0');
    assert(z.drop_first() =~= s);
    assert(hex_step(0, '0') == Ok::<nat, IntErrorKind>(0));
    if s.len() == 1 && s[0] == '-' {
        assert(z =~= seq!['0', '-']);
        assert(hex_fold(s, 0) == Err::<nat, IntErrorKind>(IntErrorKind::InvalidDigit));
    }
}

} // verus!
