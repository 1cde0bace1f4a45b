//! The Ion binary encoding of decimals, together with the primitive
//! variable-length integer codecs it is built from: the self-delimiting
//! signed `VarInt`, its unsigned counterpart `VarUInt`, and the
//! sign-and-magnitude `Int` whose sign lives in the leading byte's high bit.

use vstd::prelude::*;
use vstd::arithmetic::div_mod::lemma_fundamental_div_mod;
use crate::bignum::min_be_bytes;
use crate::coefficient::{Coefficient, Sign};
use crate::decimal::Decimal;
use crate::{IonError, IonResult};

verus! {

/// The values of the low seven bits of each byte of a `VarUInt`/`VarInt`
/// body, most significant first, written with exactly `k` digits.
pub open spec fn base128_digits(m: nat, k: nat) -> Seq<u8>
    decreases k,
{
    if k == 0 {
        Seq::empty()
    } else {
        base128_digits(m / 128, (k - 1) as nat).push((m % 128) as u8)
    }
}

/// The byte count of the `VarUInt` encoding of `m`: seven payload bits per
/// byte.
pub open spec fn var_uint_len(m: nat) -> nat
    decreases m,
{
    if m < 128 {
        1
    } else {
        1 + var_uint_len(m / 128)
    }
}

/// The byte count of the `VarInt` encoding of magnitude `m`: the first byte
/// holds only six payload bits, the sign bit takes the seventh.
pub open spec fn var_int_len(m: nat) -> nat
    decreases m,
{
    if m < 64 {
        1
    } else {
        1 + var_int_len(m / 128)
    }
}

/// The `VarUInt` encoding of `m`: base-128 digits with the end-marker bit
/// set on the last byte.
pub open spec fn var_uint_bytes(m: nat) -> Seq<u8> {
    let ds = base128_digits(m, var_uint_len(m));
    Seq::new(
        ds.len(),
        |i: int|
            if i == ds.len() - 1 {
                (ds[i] + 128) as u8
            } else {
                ds[i]
            },
    )
}

/// The `VarInt` encoding of `v`: base-128 digits of the magnitude, the sign
/// bit folded into the first byte, the end-marker bit set on the last byte.
pub open spec fn var_int_bytes(v: int) -> Seq<u8> {
    let m = (if v < 0 {
        -v
    } else {
        v
    }) as nat;
    let ds = base128_digits(m, var_int_len(m));
    Seq::new(
        ds.len(),
        |i: int|
            ((ds[i] + (if i == 0 && v < 0 {
                64int
            } else {
                0int
            }) + (if i == ds.len() - 1 {
                128int
            } else {
                0int
            })) as u8),
    )
}

/// The sign-and-magnitude `Int` encoding of a nonzero value: the sign goes
/// in the high bit of the leading magnitude byte, with an extra leading byte
/// when that bit is already occupied.
pub open spec fn sign_folded(neg: bool, s: Seq<u8>) -> Seq<u8>
    recommends
        s.len() >= 1,
{
    if s[0] < 128 {
        if neg {
            seq![(s[0] + 128) as u8] + s.skip(1)
        } else {
            s
        }
    } else {
        seq![
            (if neg {
                128u8
            } else {
                0u8
            }),
        ] + s
    }
}

/// The coefficient subfield of an encoded decimal: one reserved byte for
/// negative zero, nothing for positive zero, the sign-folded magnitude
/// otherwise.
pub open spec fn spec_coefficient_content(c: Coefficient) -> Seq<u8> {
    if c.mag_value() == 0 {
        if c.sign == Sign::Negative {
            seq![128u8]
        } else {
            Seq::<u8>::empty()
        }
    } else {
        sign_folded(c.sign == Sign::Negative, min_be_bytes(c.mag_value()))
    }
}

/// The content encoding of a decimal: empty for the canonical zero `0d0`,
/// otherwise the `VarInt` exponent followed by the coefficient subfield.
pub open spec fn spec_decimal_content(d: Decimal) -> Seq<u8> {
    if d.spec_is_canonical_zero() {
        Seq::<u8>::empty()
    } else {
        var_int_bytes(d.exponent as int) + spec_coefficient_content(d.coefficient)
    }
}

/// The full value encoding of a decimal: a descriptor byte with type code
/// `5` carrying the inline content length, or the `length follows` nibble
/// and a `VarUInt` length for content longer than thirteen bytes.
pub open spec fn spec_decimal_value_encoding(d: Decimal) -> Seq<u8> {
    let c = spec_decimal_content(d);
    if c.len() <= 13 {
        seq![(0x50 + c.len()) as u8] + c
    } else {
        seq![0x5Eu8] + var_uint_bytes(c.len() as nat) + c
    }
}

/// The value a big-endian base-128 digit string denotes.
pub open spec fn base128_val(ds: Seq<u8>) -> nat
    decreases ds.len(),
{
    if ds.len() == 0 {
        0
    } else {
        base128_val(ds.drop_last()) * 128 + ds.last() as nat
    }
}

/// The digits produced for the `VarInt` sizing fold back to the value they
/// came from.
pub proof fn lemma_base128_val_var_int(m: nat)
    ensures
        base128_val(base128_digits(m, var_int_len(m))) == m,
    decreases m,
{
    lemma_base128_digits_len(m, var_int_len(m));
    if m < 64 {
        assert(var_int_len(m) == 1);
        let ds = base128_digits(m, 1);
        assert(ds == base128_digits(m / 128, 0).push((m % 128) as u8));
        assert(ds.drop_last() =~= base128_digits(m / 128, 0));
        assert(base128_val(base128_digits(m / 128, 0)) == 0);
        assert(base128_val(ds) == base128_val(ds.drop_last()) * 128 + ds.last() as nat);
        assert(ds.last() == (m % 128) as u8);
    } else {
        assert(var_int_len(m) == 1 + var_int_len(m / 128));
        lemma_base128_val_var_int(m / 128);
        let ds = base128_digits(m, var_int_len(m));
        assert(ds == base128_digits(m / 128, (var_int_len(m) - 1) as nat).push((m % 128) as u8));
        assert(ds.drop_last() =~= base128_digits(m / 128, var_int_len(m / 128)));
        assert(base128_val(ds) == base128_val(ds.drop_last()) * 128 + ds.last() as nat);
        lemma_fundamental_div_mod(m as int, 128);
    }
}

/// The base-128 digits of a `VarInt` body, read back out of its marked
/// bytes: the sign and end-marker bits stripped.
pub open spec fn spec_var_int_digits_of(s: Seq<u8>) -> Seq<u8> {
    Seq::new(
        s.len(),
        |i: int|
            {
                let unmarked = if i == s.len() - 1 {
                    s[i] - 128
                } else {
                    s[i] as int
                };
                if i == 0 {
                    (unmarked % 64) as u8
                } else {
                    unmarked as u8
                }
            },
    )
}

/// The signed value a `VarInt` byte string denotes.
pub open spec fn spec_var_int_decode(s: Seq<u8>) -> int {
    let m = base128_val(spec_var_int_digits_of(s)) as int;
    let sign_byte = if s.len() == 1 {
        (s[0] - 128) as int
    } else {
        s[0] as int
    };
    if sign_byte >= 64 {
        -m
    } else {
        m
    }
}

/// A `VarInt` encoding is self-delimiting: the end-marker bit is set on
/// its last byte and on no other.
pub proof fn lemma_var_int_marker(v: int)
    ensures
        var_int_bytes(v).len() >= 1,
        forall|i: int| 0 <= i < var_int_bytes(v).len() - 1 ==> var_int_bytes(v)[i] < 128,
        var_int_bytes(v).last() >= 128,
{
    let m = (if v < 0 {
        -v
    } else {
        v
    }) as nat;
    lemma_var_int_len_positive(m);
    lemma_base128_digits_len(m, var_int_len(m));
    lemma_base128_digits_bound(m, var_int_len(m));
    lemma_var_int_first_digit(m);
}

/// Decoding a `VarInt` encoding recovers the encoded value.
pub proof fn lemma_var_int_decode_round_trip(v: i64)
    ensures
        spec_var_int_decode(var_int_bytes(v as int)) == v as int,
{
    let m = (if (v as int) < 0 {
        -(v as int)
    } else {
        v as int
    }) as nat;
    lemma_var_int_len_positive(m);
    lemma_base128_digits_len(m, var_int_len(m));
    lemma_base128_digits_bound(m, var_int_len(m));
    lemma_var_int_first_digit(m);
    let ds = base128_digits(m, var_int_len(m));
    let s = var_int_bytes(v as int);
    assert(spec_var_int_digits_of(s) =~= ds);
    lemma_base128_val_var_int(m);
}

/// A self-delimiting prefix is determined by the concatenation it heads:
/// two marked prefixes of the same byte string are the same prefix.
pub proof fn lemma_marked_prefix_unique(s1: Seq<u8>, r1: Seq<u8>, s2: Seq<u8>, r2: Seq<u8>)
    requires
        s1.len() >= 1,
        s2.len() >= 1,
        forall|i: int| 0 <= i < s1.len() - 1 ==> s1[i] < 128,
        forall|i: int| 0 <= i < s2.len() - 1 ==> s2[i] < 128,
        s1.last() >= 128,
        s2.last() >= 128,
        s1 + r1 == s2 + r2,
    ensures
        s1 == s2,
        r1 == r2,
{
    let whole = s1 + r1;
    if s1.len() < s2.len() {
        assert(whole[s1.len() - 1] == s1.last());
        assert(whole[s1.len() - 1] == s2[s1.len() - 1]);
        assert(s2[s1.len() - 1] < 128);
    } else if s2.len() < s1.len() {
        assert(whole[s2.len() - 1] == s2.last());
        assert(whole[s2.len() - 1] == s1[s2.len() - 1]);
        assert(s1[s2.len() - 1] < 128);
    }
    assert(s1.len() == s2.len());
    assert(s1 =~= s2) by {
        assert(forall|i: int| 0 <= i < s1.len() ==> s1[i] == whole[i] && s2[i] == whole[i]);
    }
    vstd::seq::axiom_seq_add_len(s1, r1);
    vstd::seq::axiom_seq_add_len(s2, r2);
    assert(s1.len() + r1.len() == s2.len() + r2.len());
    assert(r1.len() == r2.len());
    assert(forall|i: int| 0 <= i < r1.len() ==> r1[i] == (s1 + r1)[s1.len() + i]);
    assert(forall|i: int| 0 <= i < r2.len() ==> r2[i] == (s2 + r2)[s2.len() + i]);
    assert(r1 =~= r2);
}

/// The sign and magnitude a coefficient subfield denotes: the empty field
/// is positive zero, the reserved byte is negative zero, and otherwise the
/// sign sits in the leading byte's high bit above the magnitude bytes.
pub open spec fn spec_coefficient_decode(s: Seq<u8>) -> (bool, nat) {
    if s.len() == 0 {
        (false, 0)
    } else if s.len() == 1 && s[0] == 128 {
        (true, 0)
    } else {
        ((s[0] >= 128), crate::bignum::be_val(seq![(s[0] % 128) as u8] + s.skip(1)))
    }
}

/// Decoding a coefficient subfield recovers the coefficient's sign and
/// magnitude.
pub proof fn lemma_coefficient_decode_round_trip(c: Coefficient)
    ensures
        spec_coefficient_decode(spec_coefficient_content(c)) == (c.sign == Sign::Negative,
        c.mag_value()),
{
    let s = spec_coefficient_content(c);
    if c.mag_value() == 0 {
        if c.sign == Sign::Negative {
            assert(s =~= seq![128u8]);
        } else {
            assert(s.len() == 0);
        }
    } else {
        let neg = c.sign == Sign::Negative;
        let mb = min_be_bytes(c.mag_value());
        crate::bignum::lemma_min_be_first_nonzero(c.mag_value());
        if mb[0] < 128 {
            if neg {
                assert(s == seq![(mb[0] + 128) as u8] + mb.skip(1));
                assert(s.len() == mb.len());
                assert(s[0] == mb[0] + 128);
                assert(s[0] >= 128);
                assert(!(s.len() == 1 && s[0] == 128)) by {
                    assert(mb[0] != 0);
                }
                assert(seq![(s[0] % 128) as u8] + s.skip(1) =~= mb);
            } else {
                assert(s == mb);
                assert(s[0] < 128);
                assert(seq![(s[0] % 128) as u8] + s.skip(1) =~= mb);
            }
        } else {
            let lead: u8 = if neg {
                128u8
            } else {
                0u8
            };
            assert(s == seq![lead] + mb);
            assert(s.len() == mb.len() + 1 >= 2);
            assert(s[0] == lead);
            assert(seq![(s[0] % 128) as u8] + s.skip(1) =~= seq![0u8] + mb);
            crate::bignum::lemma_be_val_strip_zero(seq![0u8] + mb);
            assert((seq![0u8] + mb).skip(1) =~= mb);
        }
    }
}

/// The content encoding is injective up to representation equality: two
/// decimals with the same content bytes agree on sign, magnitude and
/// exponent. This is the heart of the binary round-trip law: any reader
/// that parses the content correctly recovers a representation-equal
/// decimal.
pub proof fn lemma_decimal_content_injective(d1: Decimal, d2: Decimal)
    requires
        spec_decimal_content(d1) == spec_decimal_content(d2),
    ensures
        crate::decimal::dec_repr_eq(d1, d2),
{
    lemma_empty_content_iff_canonical_zero(d1);
    lemma_empty_content_iff_canonical_zero(d2);
    if d1.spec_is_canonical_zero() {
        assert(d2.spec_is_canonical_zero());
    } else {
        assert(!d2.spec_is_canonical_zero());
        lemma_var_int_marker(d1.exponent as int);
        lemma_var_int_marker(d2.exponent as int);
        lemma_marked_prefix_unique(
            var_int_bytes(d1.exponent as int),
            spec_coefficient_content(d1.coefficient),
            var_int_bytes(d2.exponent as int),
            spec_coefficient_content(d2.coefficient),
        );
        lemma_var_int_decode_round_trip(d1.exponent);
        lemma_var_int_decode_round_trip(d2.exponent);
        lemma_coefficient_decode_round_trip(d1.coefficient);
        lemma_coefficient_decode_round_trip(d2.coefficient);
    }
}

/// The full value encoding is injective up to representation equality:
/// two decimals with the same descriptor, length and content bytes agree
/// on sign, magnitude and exponent. Together with the exact byte contract
/// of the encoder, this is the binary round-trip law as far as it can be
/// stated of the encoder alone; the decoding itself belongs to the
/// external reader.
pub proof fn lemma_decimal_value_encoding_injective(d1: Decimal, d2: Decimal)
    requires
        spec_decimal_value_encoding(d1) == spec_decimal_value_encoding(d2),
    ensures
        crate::decimal::dec_repr_eq(d1, d2),
{
    let c1 = spec_decimal_content(d1);
    let c2 = spec_decimal_content(d2);
    let e1 = spec_decimal_value_encoding(d1);
    let e2 = spec_decimal_value_encoding(d2);
    if c1.len() <= 13 && c2.len() <= 13 {
        assert(e1[0] == 0x50 + c1.len());
        assert(e2[0] == 0x50 + c2.len());
        assert(c1.len() == c2.len());
        assert(c1 =~= c2) by {
            assert(forall|i: int| 0 <= i < c1.len() ==> c1[i] == e1[i + 1] && c2[i] == e2[i + 1]);
        }
    } else if c1.len() > 13 && c2.len() > 13 {
        assert(e1.skip(1) == seq![0x5Eu8].add(var_uint_bytes(c1.len() as nat) + c1).skip(1)) by {
            assert(e1 == seq![0x5Eu8] + var_uint_bytes(c1.len() as nat) + c1);
        }
        lemma_var_uint_marker(c1.len() as nat);
        lemma_var_uint_marker(c2.len() as nat);
        assert((seq![0x5Eu8] + var_uint_bytes(c1.len() as nat) + c1).skip(1) =~= var_uint_bytes(
            c1.len() as nat,
        ) + c1);
        assert((seq![0x5Eu8] + var_uint_bytes(c2.len() as nat) + c2).skip(1) =~= var_uint_bytes(
            c2.len() as nat,
        ) + c2);
        assert(e1.skip(1) == e2.skip(1));
        lemma_marked_prefix_unique(
            var_uint_bytes(c1.len() as nat),
            c1,
            var_uint_bytes(c2.len() as nat),
            c2,
        );
    } else {
        if c1.len() <= 13 {
            assert(e1[0] == 0x50 + c1.len() && e1[0] <= 0x5D);
            assert(e2[0] == 0x5E);
        } else {
            assert(e2[0] == 0x50 + c2.len() && e2[0] <= 0x5D);
            assert(e1[0] == 0x5E);
        }
    }
    lemma_decimal_content_injective(d1, d2);
}

/// A `VarUInt` encoding is self-delimiting, like the signed form.
pub proof fn lemma_var_uint_marker(m: nat)
    ensures
        var_uint_bytes(m).len() >= 1,
        forall|i: int| 0 <= i < var_uint_bytes(m).len() - 1 ==> var_uint_bytes(m)[i] < 128,
        var_uint_bytes(m).last() >= 128,
{
    lemma_base128_digits_len(m, var_uint_len(m));
    lemma_base128_digits_bound(m, var_uint_len(m));
}

/// The empty content encoding belongs to the canonical zero `0d0` alone:
/// every other decimal's content starts with at least one exponent byte.
pub proof fn lemma_empty_content_iff_canonical_zero(d: Decimal)
    ensures
        spec_decimal_content(d).len() == 0 <==> d.spec_is_canonical_zero(),
{
    if !d.spec_is_canonical_zero() {
        let m = (if (d.exponent as int) < 0 {
            -(d.exponent as int)
        } else {
            d.exponent as int
        }) as nat;
        lemma_var_int_len_positive(m);
        lemma_base128_digits_len(m, var_int_len(m));
    }
}

pub proof fn lemma_var_int_len_positive(m: nat)
    ensures
        var_int_len(m) >= 1,
{
}

pub proof fn lemma_base128_digits_len(m: nat, k: nat)
    ensures
        base128_digits(m, k).len() == k,
    decreases k,
{
    if k > 0 {
        lemma_base128_digits_len(m / 128, (k - 1) as nat);
    }
}

pub proof fn lemma_base128_digits_bound(m: nat, k: nat)
    ensures
        forall|i: int| 0 <= i < k ==> base128_digits(m, k)[i] < 128,
    decreases k,
{
    if k > 0 {
        lemma_base128_digits_bound(m / 128, (k - 1) as nat);
        lemma_base128_digits_len(m / 128, (k - 1) as nat);
        assert(forall|i: int|
            0 <= i < k - 1 ==> base128_digits(m, k)[i] == base128_digits(m / 128, (k - 1) as nat)[i]);
    }
}

/// The first digit of a `VarInt` body leaves the sign bit's slot free.
pub proof fn lemma_var_int_first_digit(m: nat)
    ensures
        base128_digits(m, var_int_len(m))[0] < 64,
    decreases m,
{
    lemma_base128_digits_len(m, var_int_len(m));
    if m < 64 {
        assert(base128_digits(m, 1) == base128_digits(m / 128, 0).push((m % 128) as u8));
        assert(base128_digits(m / 128, 0).len() == 0);
    } else {
        lemma_var_int_first_digit(m / 128);
        lemma_base128_digits_len(m / 128, var_int_len(m / 128));
        assert(base128_digits(m, var_int_len(m)) == base128_digits(
            m / 128,
            (var_int_len(m) - 1) as nat,
        ).push((m % 128) as u8));
    }
}

/// Collects the base-128 digits of `m`, sized for the `VarInt` encoding.
fn var_int_digits(m: u64) -> (ds: Vec<u8>)
    ensures
        ds@ == base128_digits(m as nat, var_int_len(m as nat)),
        ds@.len() == var_int_len(m as nat),
{
    let mut ds: Vec<u8> = Vec::new();
    let mut n: u64 = m;
    ds.insert(0, (n % 128) as u8);
    proof {
        lemma_base128_digits_len(m as nat, var_int_len(m as nat));
        if m < 64 {
            assert(base128_digits(m as nat, 1) == base128_digits((m as nat) / 128, 0).push(
                ((m as nat) % 128) as u8,
            ));
            assert(base128_digits(m as nat, var_int_len(m as nat)) =~= ds@);
        } else {
            assert(base128_digits(m as nat, var_int_len(m as nat)) == base128_digits(
                (m as nat) / 128,
                (var_int_len(m as nat) - 1) as nat,
            ).push(((m as nat) % 128) as u8));
            assert(base128_digits(m as nat, var_int_len(m as nat)) =~= base128_digits(
                ((m as nat) / 128) as nat,
                var_int_len((((m as nat) / 128) as nat)),
            ) + ds@);
        }
    }
    while n >= 64
        invariant
            n < 64 ==> base128_digits(m as nat, var_int_len(m as nat)) == ds@,
            n >= 64 ==> base128_digits(m as nat, var_int_len(m as nat)) == base128_digits(
                ((n as nat) / 128) as nat,
                var_int_len((((n as nat) / 128) as nat)),
            ) + ds@,
        decreases n,
    {
        n = n / 128;
        let ghost before: Seq<u8> = ds@;
        ds.insert(0, (n % 128) as u8);
        proof {
            assert(ds@ =~= seq![((n as nat) % 128) as u8] + before);
            if n < 64 {
                assert(base128_digits(n as nat, 1) == base128_digits((n as nat) / 128, 0).push(
                    ((n as nat) % 128) as u8,
                ));
                assert(base128_digits(n as nat, 1) =~= seq![((n as nat) % 128) as u8]);
                assert(base128_digits(m as nat, var_int_len(m as nat)) =~= ds@);
            } else {
                assert(base128_digits(n as nat, var_int_len(n as nat)) == base128_digits(
                    (n as nat) / 128,
                    (var_int_len(n as nat) - 1) as nat,
                ).push(((n as nat) % 128) as u8));
                assert(base128_digits(m as nat, var_int_len(m as nat)) =~= base128_digits(
                    ((n as nat) / 128) as nat,
                    var_int_len((((n as nat) / 128) as nat)),
                ) + ds@);
            }
        }
    }
    ds
}

/// Collects the base-128 digits of `m`, sized for the `VarUInt` encoding.
fn var_uint_digits(m: u64) -> (ds: Vec<u8>)
    ensures
        ds@ == base128_digits(m as nat, var_uint_len(m as nat)),
        ds@.len() == var_uint_len(m as nat),
{
    let mut ds: Vec<u8> = Vec::new();
    let mut n: u64 = m;
    ds.insert(0, (n % 128) as u8);
    proof {
        lemma_base128_digits_len(m as nat, var_uint_len(m as nat));
        if m < 128 {
            assert(base128_digits(m as nat, 1) == base128_digits((m as nat) / 128, 0).push(
                ((m as nat) % 128) as u8,
            ));
            assert(base128_digits(m as nat, var_uint_len(m as nat)) =~= ds@);
        } else {
            assert(base128_digits(m as nat, var_uint_len(m as nat)) == base128_digits(
                (m as nat) / 128,
                (var_uint_len(m as nat) - 1) as nat,
            ).push(((m as nat) % 128) as u8));
            assert(base128_digits(m as nat, var_uint_len(m as nat)) =~= base128_digits(
                ((m as nat) / 128) as nat,
                var_uint_len((((m as nat) / 128) as nat)),
            ) + ds@);
        }
    }
    while n >= 128
        invariant
            n < 128 ==> base128_digits(m as nat, var_uint_len(m as nat)) == ds@,
            n >= 128 ==> base128_digits(m as nat, var_uint_len(m as nat)) == base128_digits(
                ((n as nat) / 128) as nat,
                var_uint_len((((n as nat) / 128) as nat)),
            ) + ds@,
        decreases n,
    {
        n = n / 128;
        let ghost before: Seq<u8> = ds@;
        ds.insert(0, (n % 128) as u8);
        proof {
            assert(ds@ =~= seq![((n as nat) % 128) as u8] + before);
            if n < 128 {
                assert(base128_digits(n as nat, 1) == base128_digits((n as nat) / 128, 0).push(
                    ((n as nat) % 128) as u8,
                ));
                assert(base128_digits(n as nat, 1) =~= seq![((n as nat) % 128) as u8]);
                assert(base128_digits(m as nat, var_uint_len(m as nat)) =~= ds@);
            } else {
                assert(base128_digits(n as nat, var_uint_len(n as nat)) == base128_digits(
                    (n as nat) / 128,
                    (var_uint_len(n as nat) - 1) as nat,
                ).push(((n as nat) % 128) as u8));
                assert(base128_digits(m as nat, var_uint_len(m as nat)) =~= base128_digits(
                    ((n as nat) / 128) as nat,
                    var_uint_len((((n as nat) / 128) as nat)),
                ) + ds@);
            }
        }
    }
    ds
}

/// Appends the `VarInt` encoding of `v` to `out`. Relied on by the decimal
/// encoder for the exponent subfield.
pub fn push_var_int(out: &mut Vec<u8>, v: i64)
    ensures
        final(out)@ == old(out)@ + var_int_bytes(v as int),
{
    let ghost orig: Seq<u8> = out@;
    let neg: bool = v < 0;
    let m: u64 = if v < 0 {
        ((-(v + 1)) as u64) + 1
    } else {
        v as u64
    };
    let ds = var_int_digits(m);
    let ghost target: Seq<u8> = var_int_bytes(v as int);
    proof {
        lemma_base128_digits_bound(m as nat, var_int_len(m as nat));
        lemma_var_int_first_digit(m as nat);
        assert(target.len() == ds@.len());
        assert(out@ =~= orig + target.take(0));
    }
    let mut idx: usize = 0;
    while idx < ds.len()
        invariant
            idx <= ds@.len(),
            ds@ == base128_digits(m as nat, var_int_len(m as nat)),
            ds@.len() == var_int_len(m as nat),
            target == var_int_bytes(v as int),
            target.len() == ds@.len(),
            neg == (v < 0),
            m == (if v < 0 {
                -(v as int)
            } else {
                v as int
            }),
            forall|i: int| 0 <= i < ds@.len() ==> ds@[i] < 128,
            ds@[0] < 64,
            out@ == orig + target.take(idx as int),
        decreases ds@.len() - idx,
    {
        let mut byte: u8 = ds[idx];
        if idx == 0 && neg {
            byte = byte + 64;
        }
        if idx == ds.len() - 1 {
            byte = byte + 128;
        }
        proof {
            assert(target[idx as int] == byte);
        }
        out.push(byte);
        idx = idx + 1;
        proof {
            assert(target.take(idx as int) =~= target.take(idx - 1).push(target[idx - 1]));
            assert(out@ =~= orig + target.take(idx as int));
        }
    }
    proof {
        assert(target.take(target.len() as int) =~= target);
    }
}

/// Appends the `VarUInt` encoding of `m` to `out`. Relied on by the decimal
/// encoder for the overflow length field.
pub fn push_var_uint(out: &mut Vec<u8>, m: u64)
    ensures
        final(out)@ == old(out)@ + var_uint_bytes(m as nat),
{
    let ghost orig: Seq<u8> = out@;
    let ds = var_uint_digits(m);
    let ghost target: Seq<u8> = var_uint_bytes(m as nat);
    proof {
        lemma_base128_digits_bound(m as nat, var_uint_len(m as nat));
        assert(target.len() == ds@.len());
        assert(out@ =~= orig + target.take(0));
    }
    let mut idx: usize = 0;
    while idx < ds.len()
        invariant
            idx <= ds@.len(),
            ds@ == base128_digits(m as nat, var_uint_len(m as nat)),
            ds@.len() == var_uint_len(m as nat),
            target == var_uint_bytes(m as nat),
            target.len() == ds@.len(),
            forall|i: int| 0 <= i < ds@.len() ==> ds@[i] < 128,
            out@ == orig + target.take(idx as int),
        decreases ds@.len() - idx,
    {
        let mut byte: u8 = ds[idx];
        if idx == ds.len() - 1 {
            byte = byte + 128;
        }
        proof {
            assert(target[idx as int] == byte);
        }
        out.push(byte);
        idx = idx + 1;
        proof {
            assert(target.take(idx as int) =~= target.take(idx - 1).push(target[idx - 1]));
            assert(out@ =~= orig + target.take(idx as int));
        }
    }
    proof {
        assert(target.take(target.len() as int) =~= target);
    }
}

/// Appends the coefficient subfield of `c`: the sign-and-magnitude `Int`
/// form, with negative zero's reserved single byte, and nothing at all for
/// positive zero.
fn push_coefficient_content(out: &mut Vec<u8>, c: &Coefficient)
    ensures
        final(out)@ == old(out)@ + spec_coefficient_content(*c),
{
    let ghost orig: Seq<u8> = out@;
    let neg: bool = c.sign.is_negative();
    let bytes = c.magnitude.to_min_be_bytes();
    proof {
        if c.mag_value() != 0 {
            crate::bignum::lemma_min_be_first_nonzero(c.mag_value());
        }
        assert(min_be_bytes(0) == Seq::<u8>::empty());
    }
    if bytes.len() == 0 {
        if neg {
            out.push(128);
            proof {
                assert(out@ =~= orig + spec_coefficient_content(*c));
            }
        } else {
            proof {
                assert(out@ =~= orig + spec_coefficient_content(*c));
            }
        }
        return ;
    }
    let ghost folded: Seq<u8> = sign_folded(neg, bytes@);
    let mut start: usize = 0;
    if bytes[0] < 128 {
        if neg {
            out.push(bytes[0] + 128);
            start = 1;
        }
    } else {
        if neg {
            out.push(128);
        } else {
            out.push(0);
        }
    }
    let mut j: usize = start;
    proof {
        assert(out@ + bytes@.skip(j as int) =~= orig + folded);
    }
    while j < bytes.len()
        invariant
            start <= j <= bytes@.len(),
            out@ + bytes@.skip(j as int) == orig + folded,
            folded == sign_folded(neg, bytes@),
        decreases bytes@.len() - j,
    {
        out.push(bytes[j]);
        j = j + 1;
        proof {
            assert(bytes@.skip(j - 1) =~= seq![bytes@[j - 1]] + bytes@.skip(j as int));
            assert(out@ + bytes@.skip(j as int) =~= orig + folded);
        }
    }
    proof {
        assert(bytes@.skip(bytes@.len() as int) =~= Seq::<u8>::empty());
        assert(out@ =~= out@ + bytes@.skip(bytes@.len() as int));
        assert(out@ =~= orig + spec_coefficient_content(*c));
    }
}

/// Encodes the content of a decimal (exponent, then coefficient) into the
/// sink, with no type descriptor. The canonical zero `0d0` has the empty
/// encoding. Returns the number of bytes written; writing to a `Vec` cannot
/// fail, so the result is always `Ok`.
pub fn encode_decimal(sink: &mut Vec<u8>, decimal: &Decimal) -> (r: IonResult<usize>)
    ensures
        final(sink)@ == old(sink)@ + spec_decimal_content(*decimal),
        r matches Ok(n) && n == spec_decimal_content(*decimal).len(),
{
    let ghost orig: Seq<u8> = sink@;
    if decimal.coefficient.is_zero() && !decimal.coefficient.sign.is_negative()
        && decimal.exponent == 0 {
        proof {
            assert(sink@ =~= orig + spec_decimal_content(*decimal));
        }
        return Ok(0);
    }
    let start: usize = sink.len();
    push_var_int(sink, decimal.exponent);
    push_coefficient_content(sink, &decimal.coefficient);
    proof {
        assert(sink@ =~= orig + spec_decimal_content(*decimal));
    }
    Ok(sink.len() - start)
}

/// Encodes a decimal as a full Ion value: type descriptor, length when it
/// does not fit the descriptor's low nibble, then the content. Mirrors a
/// bounded sixteen-byte scratch buffer: content longer than that is
/// refused with an I/O error and the sink is left untouched.
pub fn encode_decimal_value(sink: &mut Vec<u8>, decimal: &Decimal) -> (r: IonResult<usize>)
    ensures
        spec_decimal_content(*decimal).len() <= 16 ==> (final(sink)@ == old(sink)@
            + spec_decimal_value_encoding(*decimal) && (r matches Ok(n) && n
            == spec_decimal_value_encoding(*decimal).len())),
        spec_decimal_content(*decimal).len() > 16 ==> (final(sink)@ == old(sink)@ && (r matches Err(e)
            && (e matches IonError::IoError(_)))),
{
    let ghost orig: Seq<u8> = sink@;
    let mut encoded: Vec<u8> = Vec::new();
    let _ = encode_decimal(&mut encoded, decimal);
    if encoded.len() > 16 {
        return Err(IonError::IoError("failed to write whole buffer"));
    }
    let start: usize = sink.len();
    let ghost header: Seq<u8> = if encoded@.len() <= 13 {
        seq![(0x50 + encoded@.len()) as u8]
    } else {
        seq![0x5Eu8] + var_uint_bytes(encoded@.len() as nat)
    };
    if encoded.len() <= 13 {
        sink.push(0x50 + encoded.len() as u8);
    } else {
        sink.push(0x5E);
        push_var_uint(sink, encoded.len() as u64);
    }
    let mut j: usize = 0;
    proof {
        assert(sink@ =~= orig + header + encoded@.take(0));
    }
    while j < encoded.len()
        invariant
            j <= encoded@.len(),
            encoded@ == spec_decimal_content(*decimal),
            sink@ == orig + header + encoded@.take(j as int),
        decreases encoded@.len() - j,
    {
        sink.push(encoded[j]);
        j = j + 1;
        proof {
            assert(encoded@.take(j as int) =~= encoded@.take(j - 1).push(encoded@[j - 1]));
            assert(sink@ =~= orig + header + encoded@.take(j as int));
        }
    }
    proof {
        assert(encoded@.take(encoded@.len() as int) =~= encoded@);
        assert(sink@ =~= orig + spec_decimal_value_encoding(*decimal));
    }
    Ok(sink.len() - start)
}

} // verus!
