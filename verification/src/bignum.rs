//! Arbitrary-precision unsigned magnitudes, modelled as big-endian byte
//! strings. Only the operations the value model needs are provided: the
//! mathematical value of a byte string, division by ten, and rendering as
//! decimal digits.

use vstd::prelude::*;
use vstd::arithmetic::div_mod::{
    lemma_fundamental_div_mod, lemma_fundamental_div_mod_converse_div,
    lemma_fundamental_div_mod_converse_mod,
};
use crate::digits::dec_digit_bytes;

verus! {

/// The unsigned value denoted by a big-endian byte string.
pub open spec fn be_val(s: Seq<u8>) -> nat
    decreases s.len(),
{
    if s.len() == 0 {
        0
    } else {
        be_val(s.drop_last()) * 256 + s.last() as nat
    }
}

/// 256 raised to `e`.
pub open spec fn pow256(e: nat) -> nat
    decreases e,
{
    if e == 0 {
        1
    } else {
        256 * pow256((e - 1) as nat)
    }
}

/// The minimal big-endian byte string of `n`: empty for zero, and with a
/// nonzero leading byte otherwise.
pub open spec fn min_be_bytes(n: nat) -> Seq<u8>
    decreases n,
{
    if n == 0 {
        Seq::empty()
    } else {
        min_be_bytes(n / 256).push((n % 256) as u8)
    }
}

pub proof fn lemma_be_val_take_step(s: Seq<u8>, i: int)
    requires
        0 <= i < s.len(),
    ensures
        be_val(s.take(i + 1)) == be_val(s.take(i)) * 256 + s[i],
{
    assert(s.take(i + 1).drop_last() =~= s.take(i));
    assert(s.take(i + 1).last() == s[i]);
}

pub proof fn lemma_be_val_upper(s: Seq<u8>)
    ensures
        be_val(s) < pow256(s.len() as nat),
    decreases s.len(),
{
    if s.len() > 0 {
        lemma_be_val_upper(s.drop_last());
        let p: nat = pow256((s.len() - 1) as nat);
        assert(be_val(s.drop_last()) * 256 + 255 < p * 256) by (nonlinear_arith)
            requires
                be_val(s.drop_last()) < p,
        ;
    }
}

pub proof fn lemma_be_val_lower(s: Seq<u8>)
    requires
        s.len() >= 1,
    ensures
        be_val(s) >= s[0] * pow256((s.len() - 1) as nat),
    decreases s.len(),
{
    if s.len() == 1 {
        assert(be_val(s.drop_last()) == 0) by {
            assert(s.drop_last().len() == 0);
        }
        assert(be_val(s) == s[0] * 1 + s.last() as nat - s[0]) by {
            assert(s.last() == s[0]);
        }
        assert(pow256(0) == 1);
    } else {
        lemma_be_val_lower(s.drop_last());
        assert(s.drop_last()[0] == s[0]);
        let p: nat = pow256((s.len() - 2) as nat);
        assert(pow256((s.len() - 1) as nat) == 256 * p);
        assert(be_val(s.drop_last()) * 256 >= s[0] * (256 * p)) by (nonlinear_arith)
            requires
                be_val(s.drop_last()) >= s[0] * p,
        ;
        assert(be_val(s) == be_val(s.drop_last()) * 256 + s.last() as nat);
    }
}

/// A byte string is zero exactly when every byte is zero.
pub proof fn lemma_be_val_zero(s: Seq<u8>)
    ensures
        be_val(s) == 0 <==> (forall|i: int| 0 <= i < s.len() ==> s[i] == 0),
    decreases s.len(),
{
    if s.len() > 0 {
        lemma_be_val_zero(s.drop_last());
        assert(forall|i: int| 0 <= i < s.len() - 1 ==> s[i] == s.drop_last()[i]);
        if be_val(s) == 0 {
            assert(be_val(s.drop_last()) * 256 + s.last() == 0);
            assert(be_val(s.drop_last()) == 0 && s.last() == 0);
        }
    }
}

/// Dropping a leading zero byte leaves the value unchanged.
pub proof fn lemma_be_val_strip_zero(s: Seq<u8>)
    requires
        s.len() >= 1,
        s[0] == 0,
    ensures
        be_val(s) == be_val(s.skip(1)),
    decreases s.len(),
{
    if s.len() == 1 {
        assert(s.drop_last().len() == 0);
        assert(s.skip(1).len() == 0);
        assert(be_val(s) == be_val(s.drop_last()) * 256 + s.last() as nat);
        assert(s.last() == s[0]);
    } else {
        lemma_be_val_strip_zero(s.drop_last());
        assert(s.drop_last().skip(1) =~= s.skip(1).drop_last());
        assert(s.skip(1).last() == s.last());
        assert(be_val(s) == be_val(s.drop_last()) * 256 + s.last() as nat);
        assert(be_val(s.skip(1)) == be_val(s.skip(1).drop_last()) * 256 + s.skip(1).last() as nat);
    }
}

/// A nonempty byte string with a nonzero leading byte is the minimal
/// representation of its value.
pub proof fn lemma_min_be_of_normalized(s: Seq<u8>)
    requires
        s.len() >= 1,
        s[0] != 0,
    ensures
        min_be_bytes(be_val(s)) == s,
        be_val(s) >= 1,
    decreases s.len(),
{
    let n: nat = be_val(s);
    if s.len() == 1 {
        assert(s.drop_last().len() == 0);
        assert(n == s[0]);
        assert(min_be_bytes(n) == min_be_bytes(n / 256).push((n % 256) as u8));
        assert(min_be_bytes(n) =~= s);
    } else {
        lemma_min_be_of_normalized(s.drop_last());
        let m: nat = be_val(s.drop_last());
        assert(n == m * 256 + s.last());
        lemma_fundamental_div_mod_converse_div(n as int, 256, m as int, s.last() as int);
        lemma_fundamental_div_mod_converse_mod(n as int, 256, m as int, s.last() as int);
        assert(m >= 1 ==> n >= 256) by (nonlinear_arith)
            requires
                n == m * 256 + s.last(),
        ;
        assert(min_be_bytes(n) == min_be_bytes(n / 256).push((n % 256) as u8));
        assert(min_be_bytes(n) =~= s);
    }
}

/// A byte string with some nonzero byte has a nonzero value.
pub proof fn lemma_be_val_nonzero_byte(s: Seq<u8>, i: int)
    requires
        0 <= i < s.len(),
        s[i] != 0,
    ensures
        be_val(s) != 0,
    decreases s.len(),
{
    if i == s.len() - 1 {
        assert(be_val(s) == be_val(s.drop_last()) * 256 + s.last() as nat);
    } else {
        lemma_be_val_nonzero_byte(s.drop_last(), i);
        assert(be_val(s) == be_val(s.drop_last()) * 256 + s.last() as nat);
    }
}

/// Tests whether a big-endian byte string denotes zero.
pub fn be_is_zero(bytes: &Vec<u8>) -> (r: bool)
    ensures
        r == (be_val(bytes@) == 0),
{
    proof {
        lemma_be_val_zero(bytes@);
    }
    let mut i: usize = 0;
    while i < bytes.len()
        invariant
            i <= bytes.len(),
            forall|j: int| 0 <= j < i ==> bytes@[j] == 0,
        decreases bytes.len() - i,
    {
        if bytes[i] != 0 {
            proof {
                lemma_be_val_nonzero_byte(bytes@, i as int);
            }
            return false;
        }
        i = i + 1;
    }
    true
}

/// Divides a big-endian byte string by ten, returning a quotient of the same
/// length and the remainder.
pub fn be_div10(bytes: &Vec<u8>) -> (res: (Vec<u8>, u8))
    ensures
        res.0@.len() == bytes@.len(),
        be_val(res.0@) == be_val(bytes@) / 10,
        res.1 == be_val(bytes@) % 10,
        res.1 < 10,
{
    let mut q: Vec<u8> = Vec::new();
    let mut r: u8 = 0;
    let mut i: usize = 0;
    proof {
        assert(bytes@.take(0).len() == 0);
        assert(q@.len() == 0);
    }
    while i < bytes.len()
        invariant
            i <= bytes.len(),
            q@.len() == i,
            be_val(q@) == be_val(bytes@.take(i as int)) / 10,
            r == be_val(bytes@.take(i as int)) % 10,
            r < 10,
        decreases bytes.len() - i,
    {
        let ghost p: int = be_val(bytes@.take(i as int)) as int;
        let b: u8 = bytes[i];
        let cur: u32 = (r as u32) * 256 + (b as u32);
        let qd: u32 = cur / 10;
        let rd: u32 = cur % 10;
        proof {
            lemma_be_val_take_step(bytes@, i as int);
            lemma_fundamental_div_mod(p, 10);
            let p1: int = p * 256 + b;
            assert(p1 == 10 * ((p / 10) * 256 + qd) + rd) by (nonlinear_arith)
                requires
                    p == 10 * (p / 10) + (p % 10),
                    cur == (p % 10) * 256 + b,
                    cur == 10 * qd + rd,
                    p1 == p * 256 + b,
            ;
            lemma_fundamental_div_mod_converse_div(p1, 10, (p / 10) * 256 + qd, rd as int);
            lemma_fundamental_div_mod_converse_mod(p1, 10, (p / 10) * 256 + qd, rd as int);
        }
        let ghost old_q: Seq<u8> = q@;
        q.push(qd as u8);
        r = rd as u8;
        i = i + 1;
        proof {
            assert(q@.drop_last() =~= old_q);
            assert(be_val(q@) == be_val(old_q) * 256 + qd as nat);
        }
    }
    proof {
        assert(bytes@.take(bytes@.len() as int) =~= bytes@);
    }
    (q, r)
}

/// Renders the value of a big-endian byte string as ASCII decimal digits.
pub fn be_digits(bytes: &Vec<u8>) -> (digits: Vec<u8>)
    ensures
        digits@ == dec_digit_bytes(be_val(bytes@)),
        digits@.len() >= 1,
{
    let ghost v0: nat = be_val(bytes@);
    let mut digits: Vec<u8> = Vec::new();
    if be_is_zero(bytes) {
        digits.push(48);
        proof {
            assert(digits@ =~= dec_digit_bytes(0));
        }
        return digits;
    }
    let first = be_div10(bytes);
    let mut cur: Vec<u8> = first.0;
    digits.push(first.1 + 48);
    proof {
        if v0 >= 10 {
            assert(dec_digit_bytes(v0) == dec_digit_bytes(v0 / 10).push((48 + v0 % 10) as u8));
            assert(dec_digit_bytes(v0) =~= dec_digit_bytes(be_val(cur@)) + digits@);
        } else {
            assert(be_val(cur@) == 0);
            assert(dec_digit_bytes(v0) =~= digits@);
        }
    }
    while !be_is_zero(&cur)
        invariant
            be_val(cur@) == 0 ==> dec_digit_bytes(v0) == digits@,
            be_val(cur@) > 0 ==> dec_digit_bytes(v0) == dec_digit_bytes(be_val(cur@)) + digits@,
            digits@.len() >= 1,
        decreases be_val(cur@),
    {
        let ghost n: nat = be_val(cur@);
        let step = be_div10(&cur);
        let ghost before: Seq<u8> = digits@;
        digits.insert(0, step.1 + 48);
        cur = step.0;
        proof {
            assert(digits@ =~= seq![((n % 10) + 48) as u8] + before);
            if n >= 10 {
                assert(dec_digit_bytes(n) == dec_digit_bytes(n / 10).push((48 + n % 10) as u8));
                assert(dec_digit_bytes(v0) =~= dec_digit_bytes(be_val(cur@)) + digits@);
            } else {
                assert(dec_digit_bytes(n) =~= seq![((n % 10) + 48) as u8]);
                assert(dec_digit_bytes(v0) =~= digits@);
            }
        }
    }
    digits
}

/// Converts a big-endian byte string of at most eight bytes to a `u64`.
pub fn be_to_u64(bytes: &Vec<u8>) -> (r: u64)
    requires
        bytes@.len() <= 8,
    ensures
        r == be_val(bytes@),
{
    proof {
        lemma_pow256_values();
    }
    let mut acc: u64 = 0;
    let mut i: usize = 0;
    proof {
        assert(bytes@.take(0).len() == 0);
    }
    while i < bytes.len()
        invariant
            i <= bytes.len(),
            bytes@.len() <= 8,
            acc == be_val(bytes@.take(i as int)),
            acc < pow256(i as nat),
            pow256(8) == 0x1_0000_0000_0000_0000,
        decreases bytes.len() - i,
    {
        proof {
            lemma_be_val_take_step(bytes@, i as int);
            lemma_pow256_monotonic((i + 1) as nat, 8);
            assert(be_val(bytes@.take(i as int)) * 256 + 255 < pow256((i + 1) as nat))
                by (nonlinear_arith)
                requires
                    be_val(bytes@.take(i as int)) < pow256(i as nat),
                    pow256((i + 1) as nat) == 256 * pow256(i as nat),
            ;
        }
        acc = acc * 256 + (bytes[i] as u64);
        i = i + 1;
    }
    proof {
        assert(bytes@.take(bytes@.len() as int) =~= bytes@);
    }
    acc
}

pub proof fn lemma_pow256_monotonic(a: nat, b: nat)
    requires
        a <= b,
    ensures
        pow256(a) <= pow256(b),
    decreases b,
{
    if a < b {
        lemma_pow256_monotonic(a, (b - 1) as nat);
    }
}

pub proof fn lemma_pow256_values()
    ensures
        pow256(8) == 0x1_0000_0000_0000_0000,
{
    reveal_with_fuel(pow256, 9);
}

/// Converts a `u64` to its minimal big-endian byte string (empty for zero).
pub fn u64_to_min_be(v: u64) -> (bytes: Vec<u8>)
    ensures
        bytes@ == min_be_bytes(v as nat),
        bytes@.len() <= 8,
{
    let mut bytes: Vec<u8> = Vec::new();
    let mut n: u64 = v;
    proof {
        assert(bytes@ =~= Seq::<u8>::empty());
        lemma_pow256_values();
        lemma_min_be_len(v as nat, 8);
    }
    while n > 0
        invariant
            min_be_bytes(v as nat) == min_be_bytes(n as nat) + bytes@,
            min_be_bytes(v as nat).len() == min_be_bytes(n as nat).len() + bytes@.len(),
            min_be_bytes(v as nat).len() <= 8,
        decreases n,
    {
        let ghost before: Seq<u8> = bytes@;
        bytes.insert(0, (n % 256) as u8);
        proof {
            assert(bytes@ =~= seq![((n as nat) % 256) as u8] + before);
            assert(min_be_bytes(n as nat) == min_be_bytes((n as nat) / 256).push(
                ((n as nat) % 256) as u8,
            ));
            assert(min_be_bytes(v as nat) =~= min_be_bytes(((n as nat) / 256) as nat) + bytes@);
        }
        n = n / 256;
    }
    proof {
        assert(min_be_bytes(0).len() == 0);
        assert(min_be_bytes(v as nat) =~= bytes@);
    }
    bytes
}

/// The minimal byte string of a value below `256^k` has at most `k` bytes.
pub proof fn lemma_min_be_len(n: nat, k: nat)
    requires
        n < pow256(k),
    ensures
        min_be_bytes(n).len() <= k,
    decreases n,
{
    if n > 0 {
        assert(k >= 1) by {
            if k == 0 {
                assert(pow256(0) == 1);
            }
        }
        assert(n / 256 < pow256((k - 1) as nat)) by (nonlinear_arith)
            requires
                n < pow256(k),
                pow256(k) == 256 * pow256((k - 1) as nat),
                n / 256 <= n,
                n == 256 * (n / 256) + n % 256,
                0 <= n % 256 < 256,
        ;
        lemma_min_be_len(n / 256, (k - 1) as nat);
    }
}

/// The minimal byte string of a nonzero value starts with a nonzero byte.
pub proof fn lemma_min_be_first_nonzero(n: nat)
    requires
        n >= 1,
    ensures
        min_be_bytes(n).len() >= 1,
        min_be_bytes(n)[0] != 0,
        be_val(min_be_bytes(n)) == n,
    decreases n,
{
    if n < 256 {
        assert(min_be_bytes(0) == Seq::<u8>::empty());
        assert(min_be_bytes(n) == min_be_bytes(n / 256).push((n % 256) as u8));
        assert(min_be_bytes(n) =~= seq![n as u8]);
        assert(be_val(min_be_bytes(n)) == be_val(min_be_bytes(n).drop_last()) * 256
            + min_be_bytes(n).last());
        assert(min_be_bytes(n).drop_last().len() == 0);
    } else {
        lemma_min_be_first_nonzero(n / 256);
        assert(min_be_bytes(n) == min_be_bytes(n / 256).push((n % 256) as u8));
        assert(min_be_bytes(n)[0] == min_be_bytes(n / 256)[0]);
        assert(min_be_bytes(n).drop_last() =~= min_be_bytes(n / 256));
        lemma_fundamental_div_mod(n as int, 256);
    }
}

} // verus!
