//! Single-precision IEEE 754 numbers, held as their 32-bit patterns: where a
//! number stands on the number line, and how `{:.2}` renders it.

use vstd::prelude::*;
use crate::text::{dec, digit_char};
use crate::utils::{div_round_half_even, two_pow};

verus! {

/// The sign bit is set.
pub open spec fn sign_bit(b: u32) -> bool {
    b >= 0x8000_0000
}

/// The pattern without its sign bit.
pub open spec fn magnitude_bits(b: u32) -> nat {
    (b % 0x8000_0000) as nat
}

/// The biased exponent field.
pub open spec fn exponent_field(b: u32) -> nat {
    magnitude_bits(b) / 0x80_0000
}

/// The fraction field.
pub open spec fn fraction_field(b: u32) -> nat {
    magnitude_bits(b) % 0x80_0000
}

/// The pattern is a NaN.
pub open spec fn is_nan_bits(b: u32) -> bool {
    exponent_field(b) == 255 && fraction_field(b) != 0
}

/// The pattern is an infinity.
pub open spec fn is_infinite_bits(b: u32) -> bool {
    exponent_field(b) == 255 && fraction_field(b) == 0
}

/// The significand: the fraction, with the leading one of a normal number.
pub open spec fn significand(b: u32) -> nat {
    if exponent_field(b) == 0 {
        fraction_field(b)
    } else {
        fraction_field(b) + 0x80_0000
    }
}

/// The scale: a finite number's magnitude is `significand * 2^(scale - 150)`.
pub open spec fn scale(b: u32) -> nat {
    if exponent_field(b) == 0 {
        1
    } else {
        exponent_field(b)
    }
}

/// Where the number stands on the number line: for two patterns that are not
/// NaN, the first number is less than the second exactly when its rank is
/// less (see `lemma_rank_orders_magnitudes`); both zeros rank 0. A NaN,
/// which compares with nothing, ranks by its pattern, above the infinity of
/// its sign.
pub open spec fn rank(b: u32) -> int {
    if sign_bit(b) {
        -(magnitude_bits(b) as int)
    } else {
        magnitude_bits(b) as int
    }
}

/// `h` hundredths, written with two decimals.
pub open spec fn hundredths_text(h: nat) -> Seq<char> {
    dec(h / 100) + seq!['.', digit_char((h % 100) / 10), digit_char(h % 10)]
}

/// The magnitude of a finite number, rounded to hundredths, ties to even.
pub open spec fn magnitude_hundredths(b: u32) -> nat {
    if scale(b) >= 150 {
        significand(b) * two_pow((scale(b) - 150) as nat) * 100
    } else {
        div_round_half_even(significand(b) * 100, two_pow((150 - scale(b)) as nat))
    }
}

/// The number written with two decimals, as `{:.2}` renders it: `NaN`,
/// `inf` or the magnitude rounded to hundredths (ties to even), with a
/// leading `-` where the sign bit is set.
pub open spec fn fixed2_text(b: u32) -> Seq<char> {
    if is_nan_bits(b) {
        "NaN"@
    } else {
        (if sign_bit(b) { seq!['-'] } else { Seq::<char>::empty() }) + if is_infinite_bits(b) {
            "inf"@
        } else {
            hundredths_text(magnitude_hundredths(b))
        }
    }
}

proof fn lemma_two_pow_facts(e: nat)
    ensures
        two_pow(e + 1) == 2 * two_pow(e),
        two_pow(e) >= 1,
    decreases e,
{
    if e > 0 {
        lemma_two_pow_facts((e - 1) as nat);
    }
}

proof fn lemma_two_pow_monotone(a: nat, b: nat)
    requires
        a <= b,
    ensures
        two_pow(a) <= two_pow(b),
    decreases b - a,
{
    if a < b {
        lemma_two_pow_monotone(a, (b - 1) as nat);
        lemma_two_pow_facts((b - 1) as nat);
    }
}

proof fn lemma_two_pow_add(a: nat, b: nat)
    ensures
        two_pow(a + b) == two_pow(a) * two_pow(b),
    decreases a,
{
    if a > 0 {
        let a1 = (a - 1) as nat;
        lemma_two_pow_add(a1, b);
        lemma_two_pow_facts(a1);
        lemma_two_pow_facts(a1 + b);
        assert(a + b == (a1 + b) + 1);
        assert(2 * (two_pow(a1) * two_pow(b)) == (2 * two_pow(a1)) * two_pow(b)) by (nonlinear_arith);
        assert(two_pow(a1 + 1) == 2 * two_pow(a1));
        assert(a1 + 1 == a);
        assert(two_pow(a) == 2 * two_pow(a1));
        assert(two_pow(a + b) == 2 * two_pow(a1 + b));
    } else {
        assert(two_pow(0) == 1);
        assert(a + b == b);
    }
}

proof fn lemma_two_pow_values()
    ensures
        two_pow(24) == 0x100_0000,
        two_pow(32) == 0x1_0000_0000,
        two_pow(128) == 0x1_0000_0000_0000_0000_0000_0000_0000_0000,
{
    reveal_with_fuel(two_pow, 33);
    lemma_two_pow_add(32, 32);
    assert(two_pow(64) == 0x1_0000_0000_0000_0000);
    lemma_two_pow_add(64, 64);
    assert(0x1_0000_0000_0000_0000nat * 0x1_0000_0000_0000_0000nat == 0x1_0000_0000_0000_0000_0000_0000_0000_0000nat);
}

/// The magnitude of a finite pattern, scaled by `2^150` to an integer.
pub open spec fn scaled_magnitude(b: u32) -> nat {
    significand(b) * two_pow(scale(b))
}

proof fn lemma_scaled_step(a: u32, b: u32)
    requires
        exponent_field(a) < 255,
        exponent_field(b) < 255,
        magnitude_bits(a) < magnitude_bits(b),
    ensures
        scaled_magnitude(a) < scaled_magnitude(b),
{
    let ea = exponent_field(a);
    let eb = exponent_field(b);
    let sa = scale(a);
    let sb = scale(b);
    let pa = two_pow(sa);
    let pb = two_pow(sb);
    let ga = significand(a);
    let gb = significand(b);
    lemma_two_pow_facts(sa);
    lemma_two_pow_facts(sb);
    assert(magnitude_bits(a) == ea * 0x80_0000 + fraction_field(a));
    assert(magnitude_bits(b) == eb * 0x80_0000 + fraction_field(b));
    assert(ea <= eb) by (nonlinear_arith)
        requires
            magnitude_bits(a) == ea * 0x80_0000 + fraction_field(a),
            magnitude_bits(b) == eb * 0x80_0000 + fraction_field(b),
            fraction_field(a) < 0x80_0000,
            fraction_field(b) < 0x80_0000,
            magnitude_bits(a) < magnitude_bits(b),
    ;
    if sa == sb {
        assert(ga < gb);
        assert(ga * pa < gb * pa) by (nonlinear_arith)
            requires
                ga < gb,
                pa >= 1,
        ;
    } else {
        assert(sa + 1 <= sb);
        assert(ga < 0x100_0000);
        assert(gb >= 0x80_0000);
        lemma_two_pow_monotone(sa + 1, sb);
        assert(two_pow(sa + 1) == 2 * pa);
        assert(ga * pa < gb * pb) by (nonlinear_arith)
            requires
                ga < 0x100_0000,
                gb >= 0x80_0000,
                2 * pa <= pb,
                pa >= 1,
        ;
    }
}

/// For finite numbers, the order of the magnitudes is the order of the
/// patterns without their sign bits; an infinity stands above every finite
/// magnitude. With the sign, this makes [`rank`] the order of the numbers.
pub proof fn lemma_rank_orders_magnitudes(a: u32, b: u32)
    requires
        !is_nan_bits(a),
        !is_nan_bits(b),
    ensures
        !is_infinite_bits(a) && !is_infinite_bits(b) ==> (magnitude_bits(a) < magnitude_bits(b)
            <==> scaled_magnitude(a) < scaled_magnitude(b)),
        !is_infinite_bits(a) && !is_infinite_bits(b) ==> (magnitude_bits(a) == magnitude_bits(b)
            <==> scaled_magnitude(a) == scaled_magnitude(b)),
        !is_infinite_bits(a) && is_infinite_bits(b) ==> magnitude_bits(a) < magnitude_bits(b),
{
    if !is_infinite_bits(a) && !is_infinite_bits(b) {
        if magnitude_bits(a) < magnitude_bits(b) {
            lemma_scaled_step(a, b);
        } else if magnitude_bits(b) < magnitude_bits(a) {
            lemma_scaled_step(b, a);
        } else {
            assert(significand(a) == significand(b) && scale(a) == scale(b));
        }
    }
}

/// Appends the decimal representation of a 128-bit `n`.
fn push_dec_wide(out: &mut Vec<char>, n: u128)
    ensures
        final(out)@ == old(out)@ + dec(n as nat),
    decreases n,
{
    if n >= 10 {
        push_dec_wide(out, n / 10);
    }
    let d: u8 = (n % 10) as u8;
    out.push((48u8 + d) as char);
    assert(old(out)@ + dec(n as nat) =~= if n >= 10 {
        (old(out)@ + dec((n / 10) as nat)).push(digit_char((n % 10) as nat))
    } else {
        old(out)@.push(digit_char(n as nat))
    });
}

/// Appends [`hundredths_text`] for hundredths that fit in 64 bits.
fn push_hundredths(out: &mut Vec<char>, h: u64)
    ensures
        final(out)@ == old(out)@ + hundredths_text(h as nat),
{
    crate::text::push_dec(out, h / 100);
    out.push('.');
    out.push((48u8 + ((h % 100) / 10) as u8) as char);
    out.push((48u8 + (h % 10) as u8) as char);
    assert(final(out)@ =~= old(out)@ + hundredths_text(h as nat));
}

/// The rank of a pattern (see [`rank`]).
pub fn rank_of(b: u32) -> (res: i64)
    ensures
        res == rank(b),
{
    if b >= 0x8000_0000 {
        -((b - 0x8000_0000) as i64)
    } else {
        b as i64
    }
}

/// Appends the number written with two decimals (see [`fixed2_text`]).
pub fn push_fixed2(out: &mut Vec<char>, b: u32)
    ensures
        final(out)@ == old(out)@ + fixed2_text(b),
{
    let mag: u32 = b % 0x8000_0000;
    let exp: u32 = mag / 0x80_0000;
    let frac: u32 = mag % 0x80_0000;
    if exp == 255 && frac != 0 {
        crate::text::push_str(out, "NaN");
        proof {
            reveal_strlit("NaN");
        }
        return;
    }
    let ghost start = old(out)@;
    if b >= 0x8000_0000 {
        out.push('-');
    }
    let ghost signed = out@;
    assert(signed == start + (if sign_bit(b) { seq!['-'] } else { Seq::<char>::empty() }));
    if exp == 255 {
        crate::text::push_str(out, "inf");
        proof {
            reveal_strlit("inf");
        }
        assert(out@ =~= start + ((if sign_bit(b) { seq!['-'] } else { Seq::<char>::empty() }) + "inf"@));
        return;
    }
    let sig: u32 = if exp == 0 { frac } else { frac + 0x80_0000 };
    let sc: u32 = if exp == 0 { 1 } else { exp };
    proof {
        lemma_two_pow_values();
    }
    if sc >= 150 {
        let shift: u32 = sc - 150;
        let mut v: u128 = sig as u128;
        let mut i: u32 = 0;
        while i < shift
            invariant
                shift == sc - 150,
                sc <= 254,
                sig < 0x100_0000,
                i <= shift,
                v == sig * two_pow(i as nat),
                v < two_pow(24 + i as nat),
                two_pow(24) == 0x100_0000,
                two_pow(128) == 0x1_0000_0000_0000_0000_0000_0000_0000_0000,
            decreases shift - i,
        {
            proof {
                lemma_two_pow_facts(i as nat);
                lemma_two_pow_facts(24 + i as nat);
                lemma_two_pow_monotone(24 + i as nat + 1, 128);
                assert(sig * two_pow(i as nat + 1) == 2 * (sig * two_pow(i as nat))) by (nonlinear_arith)
                    requires
                        two_pow(i as nat + 1) == 2 * two_pow(i as nat),
                ;
            }
            v = v * 2;
            i = i + 1;
        }
        proof {
            assert(v == significand(b) * two_pow((scale(b) - 150) as nat));
        }
        push_dec_wide(out, v);
        crate::text::push_str(out, ".00");
        proof {
            reveal_strlit(".00");
            let m = v as nat;
            assert(m * 100 / 100 == m) by (nonlinear_arith);
            assert((m * 100) % 100 == 0) by (nonlinear_arith);
            assert(digit_char(0) == '0');
            assert(hundredths_text(m * 100) == dec(m) + ".00"@);
            assert(magnitude_hundredths(b) == m * 100);
        }
        assert(out@ =~= start + ((if sign_bit(b) { seq!['-'] } else { Seq::<char>::empty() })
            + hundredths_text(magnitude_hundredths(b))));
    } else {
        let k: u32 = 150 - sc;
        let n: u64 = (sig as u64) * 100;
        let h: u64 = if k >= 32 {
            proof {
                lemma_two_pow_monotone(32, k as nat);
                let d = two_pow(k as nat);
                let nn = n as nat;
                assert(nn / d == 0 && nn % d == nn) by (nonlinear_arith)
                    requires
                        nn < d,
                ;
                assert(div_round_half_even(nn, d) == 0);
            }
            0
        } else {
            let mut d: u64 = 1;
            let mut j: u32 = 0;
            while j < k
                invariant
                    k < 32,
                    j <= k,
                    d == two_pow(j as nat),
                    two_pow(32) == 0x1_0000_0000,
                decreases k - j,
            {
                proof {
                    lemma_two_pow_facts(j as nat);
                    lemma_two_pow_monotone(j as nat + 1, 32);
                }
                d = d * 2;
                j = j + 1;
            }
            proof {
                lemma_two_pow_facts(k as nat);
                lemma_two_pow_monotone(k as nat + 1, 32);
            }
            let q = n / d;
            let r = n % d;
            if 2 * r > d || (2 * r == d && q % 2 == 1) {
                q + 1
            } else {
                q
            }
        };
        assert(h == magnitude_hundredths(b));
        push_hundredths(out, h);
        assert(out@ =~= start + ((if sign_bit(b) { seq!['-'] } else { Seq::<char>::empty() })
            + hundredths_text(magnitude_hundredths(b))));
    }
}

} // verus!
