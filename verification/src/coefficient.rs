//! The signed coefficient of a decimal: an explicit sign paired with an
//! unsigned magnitude, so that zero can carry either sign.

use vstd::prelude::*;
use crate::bignum::{
    be_val, be_is_zero, be_to_u64, be_digits, min_be_bytes, u64_to_min_be, lemma_be_val_strip_zero,
    lemma_min_be_of_normalized, lemma_be_val_upper, lemma_pow256_values, lemma_pow256_monotonic,
    pow256,
};
use crate::digits::{dec_digit_bytes, num_digits, lemma_dec_digit_bytes_len};

verus! {

/// The sign carried by a coefficient, kept separate from the magnitude so
/// that zero can be positive or negative.
#[derive(Clone, Copy, Debug, PartialEq, Eq, Structural)]
pub enum Sign {
    Positive,
    Negative,
}

impl Sign {
    /// Returns true exactly for `Sign::Negative`.
    pub fn is_negative(&self) -> (r: bool)
        ensures
            r == (*self == Sign::Negative),
    {
        match self {
            Sign::Negative => true,
            Sign::Positive => false,
        }
    }
}

/// An unsigned magnitude: a small fast-path integer, or an
/// arbitrary-precision value held as big-endian bytes.
#[derive(Debug)]
pub enum Magnitude {
    U64(u64),
    BigUInt(Vec<u8>),
}

impl Magnitude {
    /// The unsigned value this magnitude denotes.
    pub open spec fn value(self) -> nat {
        match self {
            Magnitude::U64(m) => m as nat,
            Magnitude::BigUInt(b) => be_val(b@),
        }
    }

    /// Copies a byte string without its leading zero bytes, yielding the
    /// minimal big-endian form of its value.
    pub fn strip_leading_zeros(bytes: &Vec<u8>) -> (r: Vec<u8>)
        ensures
            r@ == min_be_bytes(be_val(bytes@)),
            be_val(r@) == be_val(bytes@),
    {
        let mut i: usize = 0;
        proof {
            assert(bytes@.skip(0) =~= bytes@);
        }
        while i < bytes.len() && bytes[i] == 0
            invariant
                i <= bytes@.len(),
                be_val(bytes@.skip(i as int)) == be_val(bytes@),
            decreases bytes@.len() - i,
        {
            proof {
                lemma_be_val_strip_zero(bytes@.skip(i as int));
                assert(bytes@.skip(i as int).skip(1) =~= bytes@.skip(i + 1));
            }
            i = i + 1;
        }
        let mut r: Vec<u8> = Vec::new();
        let mut j: usize = i;
        proof {
            assert(r@ =~= bytes@.subrange(i as int, i as int));
        }
        while j < bytes.len()
            invariant
                i <= j <= bytes@.len(),
                r@ == bytes@.subrange(i as int, j as int),
            decreases bytes@.len() - j,
        {
            r.push(bytes[j]);
            j = j + 1;
            proof {
                assert(r@ =~= bytes@.subrange(i as int, j as int));
            }
        }
        proof {
            assert(r@ =~= bytes@.skip(i as int));
            if r@.len() == 0 {
                assert(min_be_bytes(0) == Seq::<u8>::empty());
                assert(r@ =~= min_be_bytes(be_val(bytes@)));
            } else {
                assert(r@[0] == bytes@[i as int]);
                lemma_min_be_of_normalized(r@);
            }
        }
        r
    }

    /// Builds a magnitude from big-endian bytes, normalizing to the small
    /// representation whenever the value fits in a `u64`.
    pub fn from_be_bytes(bytes: Vec<u8>) -> (r: Magnitude)
        ensures
            r.value() == be_val(bytes@),
    {
        let stripped = Self::strip_leading_zeros(&bytes);
        if stripped.len() <= 8 {
            Magnitude::U64(be_to_u64(&stripped))
        } else {
            Magnitude::BigUInt(stripped)
        }
    }

    /// The minimal big-endian byte string of this magnitude's value.
    pub fn to_min_be_bytes(&self) -> (r: Vec<u8>)
        ensures
            r@ == min_be_bytes(self.value()),
            be_val(r@) == self.value(),
    {
        match self {
            Magnitude::U64(m) => {
                let r = u64_to_min_be(*m);
                proof {
                    if *m == 0 {
                        assert(be_val(r@) == 0);
                    } else {
                        crate::bignum::lemma_min_be_first_nonzero(*m as nat);
                    }
                }
                r
            },
            Magnitude::BigUInt(b) => Self::strip_leading_zeros(b),
        }
    }

    /// Whether this magnitude denotes zero.
    pub fn is_zero(&self) -> (r: bool)
        ensures
            r == (self.value() == 0),
    {
        match self {
            Magnitude::U64(m) => *m == 0,
            Magnitude::BigUInt(b) => be_is_zero(b),
        }
    }

    /// Whether two magnitudes denote the same value, in any representation.
    pub fn eq_value(&self, other: &Magnitude) -> (r: bool)
        ensures
            r == (self.value() == other.value()),
    {
        let a = self.to_min_be_bytes();
        let b = other.to_min_be_bytes();
        let r = a == b;
        proof {
            assert(r == (a@ =~= b@));
            if r {
                assert(a@ == b@);
                assert(be_val(a@) == be_val(b@));
            }
            if self.value() == other.value() {
                assert(a@ == b@);
                assert(a@ =~= b@);
            }
        }
        r
    }

    /// The value's decimal digits, most significant first.
    pub fn decimal_digits(&self) -> (r: Vec<u8>)
        ensures
            r@ == dec_digit_bytes(self.value()),
            r@.len() == num_digits(self.value()),
    {
        proof {
            lemma_dec_digit_bytes_len(self.value());
        }
        match self {
            Magnitude::U64(m) => {
                let mut r: Vec<u8> = Vec::new();
                crate::digits::push_u64_decimal(&mut r, *m);
                proof {
                    assert(r@ =~= dec_digit_bytes(*m as nat));
                }
                r
            },
            Magnitude::BigUInt(b) => be_digits(b),
        }
    }

    /// Duplicates this magnitude, preserving its value.
    pub fn clone_value(&self) -> (r: Magnitude)
        ensures
            r.value() == self.value(),
    {
        match self {
            Magnitude::U64(m) => Magnitude::U64(*m),
            Magnitude::BigUInt(b) => {
                let c = b.clone();
                proof {
                    assert(c@ =~= b@);
                }
                Magnitude::BigUInt(c)
            },
        }
    }
}

/// A decimal coefficient: a sign and an unsigned magnitude. The pair
/// `{Negative, 0}` is the distinguished negative-zero coefficient.
#[derive(Debug)]
pub struct Coefficient {
    pub sign: Sign,
    pub magnitude: Magnitude,
}

impl Coefficient {
    /// The magnitude's unsigned value.
    pub open spec fn mag_value(self) -> nat {
        self.magnitude.value()
    }

    /// Whether this coefficient is a zero of either sign.
    pub open spec fn spec_is_zero(self) -> bool {
        self.mag_value() == 0
    }

    /// Whether this coefficient is the negative zero.
    pub open spec fn spec_is_negative_zero(self) -> bool {
        self.mag_value() == 0 && self.sign == Sign::Negative
    }

    pub fn new(sign: Sign, magnitude: Magnitude) -> (r: Coefficient)
        ensures
            r.sign == sign,
            r.magnitude == magnitude,
    {
        Coefficient { sign, magnitude }
    }

    /// Whether this coefficient is a zero of either sign.
    pub fn is_zero(&self) -> (r: bool)
        ensures
            r == self.spec_is_zero(),
    {
        self.magnitude.is_zero()
    }

    /// Whether this coefficient is the negative zero.
    pub fn is_negative_zero(&self) -> (r: bool)
        ensures
            r == self.spec_is_negative_zero(),
    {
        self.magnitude.is_zero() && self.sign.is_negative()
    }

    /// The signed value of this coefficient as an `i64`, or `None` when the
    /// magnitude does not fit in the non-negative `i64` range.
    pub fn as_i64(&self) -> (r: Option<i64>)
        ensures
            self.mag_value() <= i64::MAX ==> (r matches Some(v) && v == (if self.sign
                == Sign::Negative {
                -(self.mag_value() as int)
            } else {
                self.mag_value() as int
            })),
            self.mag_value() > i64::MAX ==> r is None,
    {
        let small: Option<u64> = match &self.magnitude {
            Magnitude::U64(m) => Some(*m),
            Magnitude::BigUInt(b) => {
                let stripped = Magnitude::strip_leading_zeros(b);
                if stripped.len() <= 8 {
                    Some(be_to_u64(&stripped))
                } else {
                    proof {
                        lemma_be_val_upper(stripped@);
                        lemma_pow256_values();
                        crate::bignum::lemma_min_be_first_nonzero(be_val(b@));
                        lemma_pow256_monotonic(9, stripped@.len() as nat);
                        crate::bignum::lemma_be_val_lower(stripped@);
                        assert(stripped@[0] * pow256((stripped@.len() - 1) as nat) >= pow256(
                            (stripped@.len() - 1) as nat,
                        )) by (nonlinear_arith)
                            requires
                                stripped@[0] >= 1,
                                pow256((stripped@.len() - 1) as nat) >= 0,
                        ;
                        lemma_pow256_monotonic(8, (stripped@.len() - 1) as nat);
                    }
                    None
                }
            },
        };
        match small {
            Some(m) => {
                if m <= 0x7fff_ffff_ffff_ffff {
                    if self.sign.is_negative() {
                        Some(-(m as i64))
                    } else {
                        Some(m as i64)
                    }
                } else {
                    None
                }
            },
            None => None,
        }
    }

    /// Duplicates this coefficient, preserving sign and value.
    pub fn clone_value(&self) -> (r: Coefficient)
        ensures
            r.sign == self.sign,
            r.mag_value() == self.mag_value(),
    {
        Coefficient { sign: self.sign, magnitude: self.magnitude.clone_value() }
    }
}

} // verus!
