//! Human-readable rendering of byte counts and durations.

use vstd::prelude::*;
use crate::text::{dec, digit_char, push_dec, push_str, string_of_chars};

verus! {

/// `2^e`.
pub open spec fn two_pow(e: nat) -> nat
    decreases e,
{
    if e == 0 {
        1
    } else {
        2 * two_pow((e - 1) as nat)
    }
}

/// `1024^k`.
pub open spec fn kib_pow(k: nat) -> nat
    decreases k,
{
    if k == 0 {
        1
    } else {
        1024 * kib_pow((k - 1) as nat)
    }
}

/// The spacing exponent of the 53-bit binary grid that holds `b`: the least
/// `e` with `b < 2^(53 + e)` (at most 11 for 64-bit values).
pub open spec fn f64_grid_exp(b: nat, e: nat) -> nat
    decreases 11 - e,
{
    if b < two_pow(53 + e) || e >= 11 {
        e
    } else {
        f64_grid_exp(b, e + 1)
    }
}

/// `n / d` rounded to the nearest integer, ties to the even neighbour.
pub open spec fn div_round_half_even(n: nat, d: nat) -> nat {
    let q = n / d;
    let r = n % d;
    if 2 * r > d || (2 * r == d && q % 2 == 1) {
        q + 1
    } else {
        q
    }
}

/// The value of `b as f64`: `b` rounded to 53 significant bits, ties to even.
pub open spec fn f64_value(b: nat) -> nat {
    let e = f64_grid_exp(b, 0);
    if e == 0 {
        b
    } else {
        div_round_half_even(b, two_pow(e)) * two_pow(e)
    }
}

/// The unit index reached by dividing by 1024 while the value is at least
/// 1024 and a larger unit exists.
pub open spec fn unit_index(r: nat, k: nat) -> nat
    decreases 5 - k,
{
    if k < 5 && r >= kib_pow(k + 1) {
        unit_index(r, k + 1)
    } else {
        k
    }
}

/// The name of unit `k`: B, KB, MB, GB, TB or PB.
pub open spec fn unit_name(k: nat) -> Seq<char> {
    if k == 0 {
        seq!['B']
    } else {
        seq![
            if k == 1 {
                'K'
            } else if k == 2 {
                'M'
            } else if k == 3 {
                'G'
            } else if k == 4 {
                'T'
            } else {
                'P'
            },
            'B',
        ]
    }
}

/// `x / 10` shown with one decimal place.
pub open spec fn tenths_text(x: nat) -> Seq<char> {
    dec(x / 10) + seq!['.', digit_char(x % 10)]
}

/// A byte count in the largest binary unit (up to PB) that keeps the value at
/// least 1, with one decimal rounded half to even: `{:.1}` applied to
/// `bytes as f64 / 1024^k`.
pub open spec fn human_bytes(bytes: nat) -> Seq<char> {
    let r = f64_value(bytes);
    let k = unit_index(r, 0);
    tenths_text(div_round_half_even(10 * r, kib_pow(k))) + unit_name(k)
}

/// Converts a byte count to text such as `1.5KB`.
pub fn bytes_to_human_readable(bytes: u64) -> (res: String)
    ensures
        res@ == human_bytes(bytes as nat),
{
    let v = human_bytes_chars(bytes);
    string_of_chars(&v)
}

proof fn lemma_two_pow_step(e: nat)
    ensures
        two_pow(e + 1) == 2 * two_pow(e),
        two_pow(e) >= 1,
    decreases e,
{
    if e > 0 {
        lemma_two_pow_step((e - 1) as nat);
    }
}

proof fn lemma_two_pow_64()
    ensures
        two_pow(64) == 0x1_0000_0000_0000_0000,
        two_pow(53) == 0x20_0000_0000_0000,
{
    reveal_with_fuel(two_pow, 65);
}

proof fn lemma_grid_exp_bound(b: nat, e: nat)
    requires
        e <= 11,
    ensures
        e <= f64_grid_exp(b, e) <= 11,
        f64_grid_exp(b, e) == e ==> (b < two_pow(53 + e) || e >= 11),
    decreases 11 - e,
{
    if !(b < two_pow(53 + e) || e >= 11) {
        lemma_grid_exp_bound(b, e + 1);
    }
}

/// `bytes as f64`, as an exact integer, together with its bound.
fn f64_rounded(bytes: u64) -> (res: u128)
    ensures
        res == f64_value(bytes as nat),
        res <= 0x8_0000_0000_0000_0000_0000,
{
    let b = bytes as u128;
    let mut e: u64 = 0;
    let mut unit: u128 = 1;
    let mut limit: u128 = 0x20_0000_0000_0000;
    proof {
        lemma_two_pow_64();
        reveal_with_fuel(two_pow, 2);
    }
    while !(b < limit || e >= 11)
        invariant
            e <= 11,
            unit == two_pow(e as nat),
            limit == two_pow(53 + e as nat),
            1 <= unit <= 2048,
            limit <= 0x1_0000_0000_0000_0000,
            f64_grid_exp(b as nat, 0) == f64_grid_exp(b as nat, e as nat),
            two_pow(53) == 0x20_0000_0000_0000,
        decreases 11 - e,
    {
        proof {
            lemma_two_pow_step(e as nat);
            lemma_two_pow_step(53 + e as nat);
            assert(e < 11);
            lemma_two_pow_mono(e as nat, 10);
            reveal_with_fuel(two_pow, 11);
            if e == 10 {
                reveal_with_fuel(two_pow, 65);
            }
        }
        assert(limit * 2 <= 0x1_0000_0000_0000_0000) by {
            if e < 10 {
                lemma_pow_le_bound(e as nat);
            }
        }
        e = e + 1;
        unit = unit * 2;
        limit = limit * 2;
    }
    proof {
        lemma_grid_exp_bound(b as nat, e as nat);
    }
    if e == 0 {
        b
    } else {
        let q = b / unit;
        let r = b % unit;
        let qq = if 2 * r > unit || (2 * r == unit && q % 2 == 1) { q + 1 } else { q };
        assert(qq <= 0x1_0000_0000_0000_0000) by (nonlinear_arith)
            requires q == b / unit, unit >= 1, b < 0x1_0000_0000_0000_0000, qq <= q + 1;
        assert(qq * unit <= 0x8_0000_0000_0000_0000_0000) by (nonlinear_arith)
            requires qq <= 0x1_0000_0000_0000_0000, unit <= 2048;
        qq * unit
    }
}

proof fn lemma_pow_le_bound(e: nat)
    requires
        e < 10,
    ensures
        two_pow(53 + e + 1) <= 0x1_0000_0000_0000_0000,
{
    reveal_with_fuel(two_pow, 65);
    lemma_two_pow_mono(53 + e + 1, 64);
}

proof fn lemma_two_pow_mono(a: nat, b: nat)
    requires
        a <= b,
    ensures
        two_pow(a) <= two_pow(b),
    decreases b,
{
    if a < b {
        lemma_two_pow_step((b - 1) as nat);
        lemma_two_pow_mono(a, (b - 1) as nat);
    }
}

proof fn lemma_kib_pow_values()
    ensures
        kib_pow(1) == 1024,
        kib_pow(2) == 1024 * 1024,
        kib_pow(3) == 1024 * 1024 * 1024,
        kib_pow(4) == 1024 * 1024 * 1024 * 1024,
        kib_pow(5) == 1024 * 1024 * 1024 * 1024 * 1024,
        kib_pow(6) == 1024 * 1024 * 1024 * 1024 * 1024 * 1024,
{
    reveal_with_fuel(kib_pow, 7);
}

/// The characters of [`human_bytes`].
pub fn human_bytes_chars(bytes: u64) -> (res: Vec<char>)
    ensures
        res@ == human_bytes(bytes as nat),
{
    let r = f64_rounded(bytes);
    let mut k: u64 = 0;
    let mut p: u128 = 1;
    proof {
        lemma_kib_pow_values();
    }
    while k < 5 && r >= p * 1024
        invariant
            k <= 5,
            p == kib_pow(k as nat),
            1 <= p <= 1024 * 1024 * 1024 * 1024 * 1024,
            unit_index(r as nat, 0) == unit_index(r as nat, k as nat),
            r <= 0x8_0000_0000_0000_0000_0000,
            kib_pow(1) == 1024,
            kib_pow(2) == 1024 * 1024,
            kib_pow(3) == 1024 * 1024 * 1024,
            kib_pow(4) == 1024 * 1024 * 1024 * 1024,
            kib_pow(5) == 1024 * 1024 * 1024 * 1024 * 1024,
        decreases 5 - k,
    {
        k = k + 1;
        p = p * 1024;
    }
    assert(unit_index(r as nat, k as nat) == k);
    let n = 10 * r;
    let q = n / p;
    let rem = n % p;
    let x = if 2 * rem > p || (2 * rem == p && q % 2 == 1) { q + 1 } else { q };
    assert(x / 10 < 0x1_0000_0000_0000_0000) by (nonlinear_arith)
        requires
            q == n / p,
            n == 10 * r,
            x <= q + 1,
            p >= 1,
            k <= 5,
            (k < 5 ==> r < p * 1024),
            (k == 5 ==> p == 1024 * 1024 * 1024 * 1024 * 1024),
            r <= 0x8_0000_0000_0000_0000_0000,
    {
        if k < 5 {
            assert(n < p * 10240);
            assert(q < 10240);
        } else {
            assert(q <= n / p);
        }
    }
    let mut out: Vec<char> = Vec::new();
    push_dec(&mut out, (x / 10) as u64);
    out.push('.');
    out.push((48u8 + (x % 10) as u8) as char);
    if k == 0 {
        out.push('B');
    } else {
        let c = if k == 1 {
            'K'
        } else if k == 2 {
            'M'
        } else if k == 3 {
            'G'
        } else if k == 4 {
            'T'
        } else {
            'P'
        };
        out.push(c);
        out.push('B');
    }
    assert(out@ =~= human_bytes(bytes as nat));
    out
}

/// A duration in seconds as days, hours, minutes and seconds, leaving out
/// leading zero units: `1d 2h 3m 4s`, `2h 0m 5s`, `3m 0s`, `7s`.
pub open spec fn duration_text(seconds: nat) -> Seq<char> {
    let days = seconds / 86400;
    let hours = (seconds % 86400) / 3600;
    let minutes = (seconds % 3600) / 60;
    let secs = seconds % 60;
    let tail = dec(secs) + seq!['s'];
    if days > 0 {
        dec(days) + seq!['d', ' '] + dec(hours) + seq!['h', ' '] + dec(minutes) + seq!['m', ' '] + tail
    } else if hours > 0 {
        dec(hours) + seq!['h', ' '] + dec(minutes) + seq!['m', ' '] + tail
    } else if minutes > 0 {
        dec(minutes) + seq!['m', ' '] + tail
    } else {
        tail
    }
}

/// Formats a duration in seconds.
pub fn format_duration(seconds: u64) -> (res: String)
    ensures
        res@ == duration_text(seconds as nat),
{
    let days = seconds / (24 * 3600);
    let hours = (seconds % (24 * 3600)) / 3600;
    let minutes = (seconds % 3600) / 60;
    let secs = seconds % 60;
    let mut out: Vec<char> = Vec::new();
    if days > 0 {
        push_dec(&mut out, days);
        out.push('d');
        out.push(' ');
    }
    if days > 0 || hours > 0 {
        push_dec(&mut out, hours);
        out.push('h');
        out.push(' ');
    }
    if days > 0 || hours > 0 || minutes > 0 {
        push_dec(&mut out, minutes);
        out.push('m');
        out.push(' ');
    }
    push_dec(&mut out, secs);
    out.push('s');
    assert(out@ =~= duration_text(seconds as nat));
    string_of_chars(&out)
}

proof fn lemma_exact_below_grid(b: nat)
    requires
        b < 0x20_0000_0000_0000,
    ensures
        f64_value(b) == b,
{
    lemma_two_pow_64();
    lemma_grid_exp_bound(b, 0);
    assert(f64_grid_exp(b, 0) == 0) by {
        reveal_with_fuel(f64_grid_exp, 2);
    }
}

/// Counts below 1024 bytes are shown exactly, in bytes, with `.0`.
pub proof fn lemma_small_counts_in_bytes(b: nat)
    requires
        b < 1024,
    ensures
        human_bytes(b) == dec(b) + seq!['.', '0', 'B'],
{
    lemma_exact_below_grid(b);
    lemma_kib_pow_values();
    assert(kib_pow(0) == 1);
    assert(unit_index(b, 0) == 0);
    assert(div_round_half_even(10 * b, 1) == 10 * b) by (nonlinear_arith);
    assert((10 * b) / 10 == b && (10 * b) % 10 == 0) by (nonlinear_arith);
    assert(digit_char(0) == '0');
    assert(tenths_text(10 * b) + seq!['B'] =~= dec(b) + seq!['.', '0', 'B']);
}

/// A whole number of kibibytes below a mebibyte is shown exactly, in KB,
/// with `.0`.
pub proof fn lemma_whole_kibibytes(m: nat)
    requires
        1 <= m < 1024,
    ensures
        human_bytes(1024 * m) == dec(m) + seq!['.', '0', 'K', 'B'],
{
    let b = 1024 * m;
    lemma_exact_below_grid(b);
    lemma_kib_pow_values();
    assert(unit_index(b, 2) == 2 || b >= kib_pow(2));
    assert(unit_index(b, 1) == 1);
    assert(unit_index(b, 0) == 1);
    assert(div_round_half_even(10 * b, 1024) == 10 * m) by {
        assert((10 * b) / 1024 == 10 * m && (10 * b) % 1024 == 0) by (nonlinear_arith)
            requires b == 1024 * m;
    }
    assert((10 * m) / 10 == m && (10 * m) % 10 == 0) by (nonlinear_arith);
    assert(digit_char(0) == '0');
    assert(tenths_text(10 * m) + unit_name(1) =~= dec(m) + seq!['.', '0', 'K', 'B']);
}

/// Durations under an hour are shown as seconds, or as minutes and seconds.
pub proof fn lemma_short_durations(seconds: nat)
    requires
        seconds < 3600,
    ensures
        seconds < 60 ==> duration_text(seconds) == dec(seconds) + seq!['s'],
        seconds >= 60 ==> duration_text(seconds) == dec(seconds / 60) + seq!['m', ' '] + dec(seconds % 60) + seq!['s'],
{
    assert(seconds / 86400 == 0);
    assert((seconds % 86400) / 3600 == 0);
    assert(seconds % 3600 == seconds);
}

} // verus!
