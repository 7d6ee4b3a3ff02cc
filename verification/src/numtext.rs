//! Rendering of numbers as ASCII bytes: plain decimal, zero-padded decimal
//! and hexadecimal digits, and the six-decimal fixed-point form the
//! normalized-box encoder emits.

use vstd::prelude::*;
use vstd::arithmetic::div_mod::lemma_div_is_ordered;
use vstd::arithmetic::div_mod::lemma_div_pos_is_pos;
use vstd::arithmetic::div_mod::lemma_fundamental_div_mod;
use vstd::arithmetic::div_mod::lemma_fundamental_div_mod_converse;

verus! {

/// The decimal digits of `n`, most significant first, without leading
/// zeroes (a single `'0'` for zero).
pub open spec fn dec_digits(n: nat) -> Seq<u8>
    decreases n,
{
    if n < 10 {
        seq![(48 + n) as u8]
    } else {
        dec_digits(n / 10).push((48 + n % 10) as u8)
    }
}

/// The last `width` decimal digits of `n`, zero-padded on the left.
pub open spec fn dec_fixed(n: nat, width: nat) -> Seq<u8>
    decreases width,
{
    if width == 0 {
        Seq::empty()
    } else {
        dec_fixed(n / 10, (width - 1) as nat).push((48 + n % 10) as u8)
    }
}

/// The ASCII byte of one lowercase hexadecimal digit.
pub open spec fn hex_digit(d: nat) -> u8 {
    if d < 10 {
        (48 + d) as u8
    } else {
        (87 + d) as u8
    }
}

/// The last `width` lowercase hexadecimal digits of `n`, zero-padded on the
/// left.
pub open spec fn hex_fixed(n: nat, width: nat) -> Seq<u8>
    decreases width,
{
    if width == 0 {
        Seq::empty()
    } else {
        hex_fixed(n / 16, (width - 1) as nat).push(hex_digit(n % 16))
    }
}

/// `16^width`.
pub open spec fn pow16(width: nat) -> nat
    decreases width,
{
    if width == 0 {
        1
    } else {
        16 * pow16((width - 1) as nat)
    }
}

/// A fraction `n / d` scaled to millionths and rounded to the nearest
/// integer, halves up.
pub open spec fn micro_of(n: int, d: int) -> int
    recommends
        d > 0,
{
    (2 * n * 1000000 + d) / (2 * d)
}

/// A number of millionths rendered with six digits after the point, the way
/// a normalized coordinate is written into a label file.
pub open spec fn fixed6(micro: nat) -> Seq<u8> {
    dec_digits(micro / 1000000) + seq![46u8] + dec_fixed(micro % 1000000, 6)
}

/// Appends the decimal digits of `n`.
pub fn push_dec_u64(out: &mut Vec<u8>, n: u64)
    ensures
        final(out)@ == old(out)@ + dec_digits(n as nat),
    decreases n,
{
    if n >= 10 {
        push_dec_u64(out, n / 10);
    }
    let d: u8 = (n % 10) as u8;
    out.push(48 + d);
    assert(final(out)@ == old(out)@ + dec_digits(n as nat));
}

/// Appends the last `width` decimal digits of `n`, zero-padded.
pub fn push_dec_fixed(out: &mut Vec<u8>, n: u64, width: u64)
    ensures
        final(out)@ == old(out)@ + dec_fixed(n as nat, width as nat),
    decreases width,
{
    if width > 0 {
        push_dec_fixed(out, n / 10, width - 1);
        let d: u8 = (n % 10) as u8;
        out.push(48 + d);
    }
    assert(final(out)@ == old(out)@ + dec_fixed(n as nat, width as nat));
}

/// Appends the last `width` lowercase hexadecimal digits of `n`,
/// zero-padded.
pub fn push_hex_fixed(out: &mut Vec<u8>, n: u128, width: u64)
    ensures
        final(out)@ == old(out)@ + hex_fixed(n as nat, width as nat),
    decreases width,
{
    if width > 0 {
        push_hex_fixed(out, n / 16, width - 1);
        let d: u8 = (n % 16) as u8;
        if d < 10 {
            out.push(48 + d);
        } else {
            out.push(87 + d);
        }
    }
    assert(final(out)@ == old(out)@ + hex_fixed(n as nat, width as nat));
}

/// Appends `micro` millionths in the six-decimal fixed-point form.
pub fn push_fixed6(out: &mut Vec<u8>, micro: u64)
    requires
        micro <= 1000000,
    ensures
        final(out)@ == old(out)@ + fixed6(micro as nat),
{
    push_dec_u64(out, micro / 1000000);
    out.push(46);
    push_dec_fixed(out, micro % 1000000, 6);
}

/// Rounds the fraction `n / d` to millionths. The result of dividing a
/// value in `[0, d]` by `d` always lands in `[0, 1000000]`.
pub fn norm_micro(n: i128, d: i128) -> (r: u64)
    requires
        0 < d <= 0x4_0000_0000,
        0 <= n <= d,
    ensures
        r == micro_of(n as int, d as int),
        r <= 1000000,
{
    let num: i128 = 2 * n * 1000000 + d;
    let den: i128 = 2 * d;
    proof {
        lemma_div_pos_is_pos(num as int, den as int);
        lemma_div_is_ordered(num as int, 2 * (d as int) * 1000000 + d, den as int);
        lemma_fundamental_div_mod_converse(
            2 * (d as int) * 1000000 + d,
            2 * (d as int),
            1000000,
            d as int,
        );
    }
    (num / den) as u64
}

/// Every 128-bit value lies below `16^32`, so 32 hexadecimal digits
/// render it faithfully.
pub proof fn lemma_pow16_32()
    ensures
        pow16(32) == 0x1_0000_0000_0000_0000_0000_0000_0000_0000,
{
    reveal_with_fuel(pow16, 33);
}

/// The digit sequences of this module all have their stated width.
pub proof fn lemma_hex_fixed_len(n: nat, width: nat)
    ensures
        hex_fixed(n, width).len() == width,
    decreases width,
{
    if width > 0 {
        lemma_hex_fixed_len(n / 16, (width - 1) as nat);
    }
}

/// Two distinct values below `16^width` never render as the same `width`
/// hexadecimal digits: fixed-width hexadecimal rendering is injective.
pub proof fn lemma_hex_fixed_injective(a: nat, b: nat, width: nat)
    requires
        a < pow16(width),
        b < pow16(width),
        hex_fixed(a, width) == hex_fixed(b, width),
    ensures
        a == b,
    decreases width,
{
    if width == 0 {
        assert(a == 0 && b == 0);
    } else {
        let wm1 = (width - 1) as nat;
        lemma_hex_fixed_len(a, width);
        lemma_hex_fixed_len(a / 16, wm1);
        lemma_hex_fixed_len(b / 16, wm1);
        let sa = hex_fixed(a / 16, wm1);
        let sb = hex_fixed(b / 16, wm1);
        assert(sa.push(hex_digit(a % 16)) == sb.push(hex_digit(b % 16)));
        assert(hex_digit(a % 16) == sa.push(hex_digit(a % 16))[width - 1]);
        assert(hex_digit(b % 16) == sb.push(hex_digit(b % 16))[width - 1]);
        assert(a % 16 == b % 16) by {
            assert(hex_digit(a % 16) == hex_digit(b % 16));
        }
        assert(sa =~= sb) by {
            assert forall|i: int| 0 <= i < wm1 implies sa[i] == sb[i] by {
                assert(sa[i] == sa.push(hex_digit(a % 16))[i]);
                assert(sb[i] == sb.push(hex_digit(b % 16))[i]);
            }
        }
        assert(a / 16 < pow16(wm1) && b / 16 < pow16(wm1)) by {
            lemma_fundamental_div_mod(a as int, 16);
            lemma_fundamental_div_mod(b as int, 16);
            assert(pow16(width) == 16 * pow16(wm1));
        }
        lemma_hex_fixed_injective(a / 16, b / 16, wm1);
        lemma_fundamental_div_mod(a as int, 16);
        lemma_fundamental_div_mod(b as int, 16);
    }
}

} // verus!
