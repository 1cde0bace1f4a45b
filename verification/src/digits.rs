//! Decimal-digit arithmetic shared by the value model, the binary encoder and
//! the text renderer: powers of ten, digit counts, and rendering unsigned
//! integers as ASCII decimal digits.

use vstd::prelude::*;

verus! {

/// Ten raised to `e`.
pub open spec fn pow10(e: nat) -> nat
    decreases e,
{
    if e == 0 {
        1
    } else {
        10 * pow10((e - 1) as nat)
    }
}

/// The number of decimal digits of `n` (one digit for zero).
pub open spec fn num_digits(n: nat) -> nat
    decreases n,
{
    if n < 10 {
        1
    } else {
        1 + num_digits(n / 10)
    }
}

/// The ASCII decimal digits of `n`, most significant first.
pub open spec fn dec_digit_bytes(n: nat) -> Seq<u8>
    decreases n,
{
    if n < 10 {
        seq![(48 + n) as u8]
    } else {
        dec_digit_bytes(n / 10).push((48 + n % 10) as u8)
    }
}

/// `k` ASCII zero digits.
pub open spec fn zero_bytes(k: nat) -> Seq<u8> {
    Seq::new(k, |i: int| 48u8)
}

/// The digits of `n`, left-padded with ASCII zeros to width `w`.
pub open spec fn padded_digit_bytes(n: nat, w: nat) -> Seq<u8> {
    if num_digits(n) >= w {
        dec_digit_bytes(n)
    } else {
        zero_bytes((w - num_digits(n)) as nat) + dec_digit_bytes(n)
    }
}

pub proof fn lemma_pow10_monotonic(a: nat, b: nat)
    requires
        a <= b,
    ensures
        pow10(a) <= pow10(b),
    decreases b,
{
    if a < b {
        lemma_pow10_monotonic(a, (b - 1) as nat);
        assert(pow10(b) == 10 * pow10((b - 1) as nat));
    }
}

pub proof fn lemma_pow10_positive(e: nat)
    ensures
        pow10(e) >= 1,
    decreases e,
{
    if e > 0 {
        lemma_pow10_positive((e - 1) as nat);
    }
}

pub proof fn lemma_num_digits_positive(n: nat)
    ensures
        num_digits(n) >= 1,
    decreases n,
{
    if n >= 10 {
        lemma_num_digits_positive(n / 10);
    }
}

/// `n` has at most `d` digits exactly when `n < 10^d` (for positive `d`).
pub proof fn lemma_num_digits_le(n: nat, d: nat)
    requires
        d >= 1,
    ensures
        num_digits(n) <= d <==> n < pow10(d),
    decreases n,
{
    if n < 10 {
        lemma_pow10_monotonic(1, d);
        assert(pow10(1) == 10 * pow10(0));
    } else {
        lemma_num_digits_positive(n / 10);
        if d == 1 {
            assert(pow10(1) == 10 * pow10(0));
        } else {
            lemma_num_digits_le(n / 10, (d - 1) as nat);
            assert(pow10(d) == 10 * pow10((d - 1) as nat));
            assert(n / 10 < pow10((d - 1) as nat) ==> n < pow10(d)) by {
                if n / 10 < pow10((d - 1) as nat) {
                    assert(n < (n / 10 + 1) * 10) by (nonlinear_arith);
                    assert((n / 10 + 1) * 10 <= pow10((d - 1) as nat) * 10) by (nonlinear_arith)
                        requires
                            n / 10 + 1 <= pow10((d - 1) as nat),
                    ;
                }
            }
            assert(n < pow10(d) ==> n / 10 < pow10((d - 1) as nat)) by {
                if n / 10 >= pow10((d - 1) as nat) {
                    assert(n >= (n / 10) * 10) by (nonlinear_arith);
                    assert((n / 10) * 10 >= pow10((d - 1) as nat) * 10) by (nonlinear_arith)
                        requires
                            n / 10 >= pow10((d - 1) as nat),
                    ;
                }
            }
        }
    }
}

/// The rendered digit sequence of `n` has exactly `num_digits(n)` digits.
pub proof fn lemma_dec_digit_bytes_len(n: nat)
    ensures
        dec_digit_bytes(n).len() == num_digits(n),
    decreases n,
{
    if n >= 10 {
        lemma_dec_digit_bytes_len(n / 10);
    }
}

/// Counts the decimal digits of `value`; zero has one digit.
pub fn num_decimal_digits_in_u64(value: u64) -> (r: u32)
    ensures
        r == num_digits(value as nat),
        1 <= r <= 20,
{
    let mut n: u64 = value;
    let mut count: u32 = 1;
    proof {
        lemma_num_digits_le(value as nat, 20);
        lemma_pow10_20_value();
    }
    while n >= 10
        invariant
            count >= 1,
            num_digits(value as nat) == (count - 1) + num_digits(n as nat),
            num_digits(n as nat) <= 21 - count,
        decreases n,
    {
        n = n / 10;
        count = count + 1;
    }
    count
}

proof fn lemma_pow10_20_value()
    ensures
        pow10(20) == 0x5_6bc7_5e2d_6310_0000,
{
    reveal_with_fuel(pow10, 21);
}

proof fn lemma_pow10_small_values()
    ensures
        pow10(8) == 100_000_000,
        pow10(9) == 1_000_000_000,
{
    reveal_with_fuel(pow10, 10);
}

/// Ten to the power `e`, for exponents that fit in a `u32`.
pub fn pow10_u32(e: u32) -> (r: u32)
    requires
        e <= 9,
    ensures
        r == pow10(e as nat),
        r >= 1,
{
    let mut r: u32 = 1;
    let mut i: u32 = 0;
    proof {
        lemma_pow10_positive(e as nat);
    }
    while i < e
        invariant
            i <= e <= 9,
            r == pow10(i as nat),
        decreases e - i,
    {
        proof {
            lemma_pow10_monotonic(i as nat, 8);
            lemma_pow10_small_values();
        }
        r = r * 10;
        i = i + 1;
    }
    proof {
        lemma_pow10_positive(e as nat);
    }
    r
}

/// Returns the first `num_digits_arg` decimal digits of `value`, truncating
/// the rest; returns `value` unchanged when it has no more digits than that.
pub fn first_n_digits_of(num_digits_arg: u32, value: u32) -> (r: u32)
    requires
        num_digits_arg > 0 || value < 1_000_000_000,
    ensures
        r == spec_first_n_digits(num_digits_arg as nat, value as nat),
{
    let total_digits: u32 = num_decimal_digits_in_u64(value as u64);
    if total_digits <= num_digits_arg {
        value
    } else {
        proof {
            lemma_num_digits_le(value as nat, 10);
            lemma_pow10_10_value();
            if num_digits_arg == 0 {
                lemma_num_digits_le(value as nat, 9);
                lemma_pow10_9_value();
            }
        }
        value / pow10_u32(total_digits - num_digits_arg)
    }
}

pub proof fn lemma_pow10_10_value()
    ensures
        pow10(10) == 10_000_000_000,
{
    reveal_with_fuel(pow10, 11);
}

pub proof fn lemma_pow10_9_value()
    ensures
        pow10(9) == 1_000_000_000,
{
    reveal_with_fuel(pow10, 10);
}

/// The first `d` digits of `v`, as a mathematical value.
pub open spec fn spec_first_n_digits(d: nat, v: nat) -> nat {
    if num_digits(v) <= d {
        v
    } else {
        v / pow10((num_digits(v) - d) as nat)
    }
}

/// Appends the ASCII decimal digits of `v` to `out`.
pub fn push_u64_decimal(out: &mut Vec<u8>, v: u64)
    ensures
        final(out)@ == old(out)@ + dec_digit_bytes(v as nat),
{
    let ghost orig: Seq<u8> = out@;
    let base: usize = out.len();
    let mut n: u64 = v;
    out.insert(base, (n % 10) as u8 + 48);
    n = n / 10;
    proof {
        assert(out@.take(base as int) =~= orig);
        if v >= 10 {
            assert(dec_digit_bytes(v as nat) == dec_digit_bytes((v as nat) / 10).push(
                (48 + (v as nat) % 10) as u8,
            ));
            assert(dec_digit_bytes(v as nat) =~= dec_digit_bytes(n as nat) + out@.skip(base as int));
        } else {
            assert(dec_digit_bytes(v as nat) =~= out@.skip(base as int));
        }
    }
    while n > 0
        invariant
            base <= out.len(),
            out@.take(base as int) == orig,
            n == 0 ==> dec_digit_bytes(v as nat) == out@.skip(base as int),
            n > 0 ==> dec_digit_bytes(v as nat) == dec_digit_bytes(n as nat) + out@.skip(base as int),
        decreases n,
    {
        let ghost before: Seq<u8> = out@;
        out.insert(base, (n % 10) as u8 + 48);
        proof {
            assert(out@.take(base as int) =~= orig);
            assert(out@.skip(base as int) =~= seq![((n as nat) % 10 + 48) as u8] + before.skip(
                base as int,
            ));
            if n >= 10 {
                assert(dec_digit_bytes(n as nat) == dec_digit_bytes((n as nat) / 10).push(
                    (48 + (n as nat) % 10) as u8,
                ));
                assert(dec_digit_bytes(v as nat) =~= dec_digit_bytes(((n as nat) / 10) as nat)
                    + out@.skip(base as int));
            } else {
                assert(dec_digit_bytes(n as nat) =~= seq![((n as nat) % 10 + 48) as u8]);
                assert(dec_digit_bytes(v as nat) =~= out@.skip(base as int));
            }
        }
        n = n / 10;
    }
    proof {
        assert(out@ =~= orig + out@.skip(base as int));
    }
}

/// Appends the digits of `v`, left-padded with zeros to `width` digits.
pub fn push_u64_padded(out: &mut Vec<u8>, v: u64, width: u32)
    requires
        width <= 20,
    ensures
        final(out)@ == old(out)@ + padded_digit_bytes(v as nat, width as nat),
{
    let ghost orig: Seq<u8> = out@;
    let d: u32 = num_decimal_digits_in_u64(v);
    let mut i: u32 = d;
    proof {
        assert(out@ =~= orig + zero_bytes(0));
    }
    while i < width
        invariant
            d <= i <= 20,
            width <= 20,
            i <= width || i == d,
            out@ == orig + zero_bytes((i - d) as nat),
        decreases width - i,
    {
        let ghost before: Seq<u8> = out@;
        out.push(48);
        proof {
            assert(out@ =~= orig + zero_bytes((i + 1 - d) as nat));
        }
        i = i + 1;
    }
    push_u64_decimal(out, v);
    proof {
        if num_digits(v as nat) >= width {
            assert(out@ =~= orig + padded_digit_bytes(v as nat, width as nat));
        } else {
            assert(out@ =~= orig + padded_digit_bytes(v as nat, width as nat));
        }
    }
}

} // verus!
