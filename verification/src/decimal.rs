//! Arbitrary-precision decimal values: a signed coefficient scaled by a
//! power of ten. A decimal's value is `coefficient * 10^exponent`.
//!
//! Two equalities live here. Value equality (`==`) treats every zero
//! coefficient as equal to every other zero coefficient, whatever the signs
//! and exponents; nonzero decimals are value-equal only when sign, magnitude
//! and exponent all match. Representation equality (`ion_eq`) additionally
//! distinguishes the zeros: `0d0`, `0d10` and `-0d0` are all value-equal but
//! pairwise representation-distinct.

use vstd::prelude::*;
use crate::coefficient::{Coefficient, Magnitude, Sign};
use crate::digits::dec_digit_bytes;

verus! {

/// An arbitrary-precision decimal: `coefficient * 10^exponent`.
#[derive(Debug)]
pub struct Decimal {
    pub coefficient: Coefficient,
    pub exponent: i64,
}

/// Value equality of decimals: all zero coefficients are interchangeable;
/// nonzero decimals must match in sign, magnitude and exponent.
pub open spec fn dec_value_eq(a: Decimal, b: Decimal) -> bool {
    (a.coefficient.spec_is_zero() && b.coefficient.spec_is_zero()) || (a.coefficient.sign
        == b.coefficient.sign && a.coefficient.mag_value() == b.coefficient.mag_value()
        && a.exponent == b.exponent)
}

/// Representation equality of decimals: sign, magnitude and exponent must
/// all match exactly, zero or not.
pub open spec fn dec_repr_eq(a: Decimal, b: Decimal) -> bool {
    a.coefficient.sign == b.coefficient.sign && a.coefficient.mag_value()
        == b.coefficient.mag_value() && a.exponent == b.exponent
}

impl Decimal {
    /// The coefficient's unsigned magnitude, as a mathematical value.
    pub open spec fn mag_value(self) -> nat {
        self.coefficient.mag_value()
    }

    /// Whether this decimal is the canonical zero `0d0`: positive zero
    /// coefficient with exponent zero. This is the distinguished value whose
    /// binary content encoding is empty.
    pub open spec fn spec_is_canonical_zero(self) -> bool {
        self.coefficient.spec_is_zero() && self.coefficient.sign == Sign::Positive && self.exponent
            == 0
    }

    /// Whether this decimal denotes zero with exponent zero, whatever the
    /// zero's sign. A timestamp mantissa holding such a decimal is empty.
    pub open spec fn spec_is_empty(self) -> bool {
        self.coefficient.spec_is_zero() && self.exponent == 0
    }

    /// Whether this decimal is strictly negative.
    pub open spec fn spec_is_negative(self) -> bool {
        self.coefficient.sign == Sign::Negative && self.mag_value() > 0
    }

    /// Builds a decimal from a signed `i64` coefficient and an exponent.
    /// A coefficient of zero always yields the positive zero; use
    /// [`Decimal::negative_zero`] for the negative zero.
    pub fn new(coefficient: i64, exponent: i64) -> (d: Decimal)
        ensures
            d.exponent == exponent,
            coefficient >= 0 ==> d.coefficient.sign == Sign::Positive && d.mag_value()
                == coefficient,
            coefficient < 0 ==> d.coefficient.sign == Sign::Negative && d.mag_value()
                == -(coefficient as int),
    {
        if coefficient < 0 {
            let magnitude: u64 = ((-(coefficient + 1)) as u64) + 1;
            Decimal {
                coefficient: Coefficient { sign: Sign::Negative, magnitude: Magnitude::U64(magnitude) },
                exponent,
            }
        } else {
            Decimal {
                coefficient: Coefficient {
                    sign: Sign::Positive,
                    magnitude: Magnitude::U64(coefficient as u64),
                },
                exponent,
            }
        }
    }

    /// Builds the negative zero decimal with the given exponent.
    pub fn negative_zero_with_exponent(exponent: i64) -> (d: Decimal)
        ensures
            d.exponent == exponent,
            d.coefficient.sign == Sign::Negative,
            d.mag_value() == 0,
    {
        Decimal {
            coefficient: Coefficient { sign: Sign::Negative, magnitude: Magnitude::U64(0) },
            exponent,
        }
    }

    /// Builds the negative zero decimal `-0d0`.
    pub fn negative_zero() -> (d: Decimal)
        ensures
            d.exponent == 0,
            d.coefficient.sign == Sign::Negative,
            d.mag_value() == 0,
    {
        Decimal::negative_zero_with_exponent(0)
    }

    /// Builds a decimal from an explicit coefficient and exponent.
    pub fn from_coefficient(coefficient: Coefficient, exponent: i64) -> (d: Decimal)
        ensures
            d.coefficient == coefficient,
            d.exponent == exponent,
    {
        Decimal { coefficient, exponent }
    }

    /// The number of digits after the decimal point, the negation of the
    /// exponent.
    pub fn scale(&self) -> (r: i64)
        requires
            self.exponent != i64::MIN,
        ensures
            r == -self.exponent,
    {
        -self.exponent
    }

    /// Whether this decimal is strictly negative (a negative zero is not).
    pub fn is_less_than_zero(&self) -> (r: bool)
        ensures
            r == self.spec_is_negative(),
    {
        self.coefficient.sign.is_negative() && !self.coefficient.is_zero()
    }

    /// Whether this decimal denotes zero with exponent zero.
    pub fn is_empty_value(&self) -> (r: bool)
        ensures
            r == self.spec_is_empty(),
    {
        self.coefficient.is_zero() && self.exponent == 0
    }

    /// Representation equality: sign, magnitude and exponent all match.
    pub fn ion_eq(&self, other: &Decimal) -> (r: bool)
        ensures
            r == dec_repr_eq(*self, *other),
    {
        (self.coefficient.sign == other.coefficient.sign) && self.coefficient.magnitude.eq_value(
            &other.coefficient.magnitude,
        ) && self.exponent == other.exponent
    }

    /// Duplicates this decimal, preserving sign, magnitude and exponent.
    pub fn clone_value(&self) -> (r: Decimal)
        ensures
            r.coefficient.sign == self.coefficient.sign,
            r.mag_value() == self.mag_value(),
            r.exponent == self.exponent,
    {
        Decimal { coefficient: self.coefficient.clone_value(), exponent: self.exponent }
    }

    /// Appends the canonical text of this decimal: the signed coefficient,
    /// a `d`, and the signed exponent (for example `0d0`, `42d0`, `-0d-3`).
    pub fn push_text(&self, out: &mut Vec<u8>)
        ensures
            final(out)@ == old(out)@ + spec_decimal_text(*self),
    {
        let ghost orig: Seq<u8> = out@;
        if self.coefficient.sign.is_negative() {
            out.push(45);
        }
        let digits = self.coefficient.magnitude.decimal_digits();
        let mut i: usize = 0;
        while i < digits.len()
            invariant
                i <= digits@.len(),
                out@ == (if self.coefficient.sign == Sign::Negative {
                    orig + seq![45u8]
                } else {
                    orig
                }) + digits@.take(i as int),
            decreases digits@.len() - i,
        {
            out.push(digits[i]);
            i = i + 1;
            proof {
                assert(digits@.take(i as int) =~= digits@.take(i - 1).push(digits@[i - 1]));
                assert(out@ =~= (if self.coefficient.sign == Sign::Negative {
                    orig + seq![45u8]
                } else {
                    orig
                }) + digits@.take(i as int));
            }
        }
        out.push(100);
        if self.exponent < 0 {
            out.push(45);
            let mag: u64 = ((-(self.exponent + 1)) as u64) + 1;
            crate::digits::push_u64_decimal(out, mag);
        } else {
            crate::digits::push_u64_decimal(out, self.exponent as u64);
        }
        proof {
            assert(digits@.take(digits@.len() as int) =~= digits@);
            assert(out@ =~= orig + spec_decimal_text(*self));
        }
    }
}

/// The canonical text of a decimal: signed coefficient digits, `d`, signed
/// exponent digits.
pub open spec fn spec_decimal_text(d: Decimal) -> Seq<u8> {
    (if d.coefficient.sign == Sign::Negative {
        seq![45u8]
    } else {
        Seq::<u8>::empty()
    }) + dec_digit_bytes(d.mag_value()) + seq![100u8] + (if d.exponent < 0 {
        seq![45u8] + dec_digit_bytes((-(d.exponent as int)) as nat)
    } else {
        dec_digit_bytes(d.exponent as nat)
    })
}

impl Clone for Decimal {
    /// Duplicates this decimal; the copy is representation-equal.
    fn clone(&self) -> (r: Self)
        ensures
            dec_repr_eq(r, *self),
    {
        self.clone_value()
    }
}

impl PartialEq for Decimal {
    /// Value equality as described in the module documentation: any zero
    /// equals any zero; nonzero values must match exactly.
    fn eq(&self, other: &Decimal) -> (r: bool) {
        if self.coefficient.is_zero() && other.coefficient.is_zero() {
            true
        } else {
            (self.coefficient.sign == other.coefficient.sign)
                && self.coefficient.magnitude.eq_value(&other.coefficient.magnitude)
                && self.exponent == other.exponent
        }
    }
}

impl vstd::std_specs::cmp::PartialEqSpecImpl for Decimal {
    open spec fn obeys_eq_spec() -> bool {
        true
    }

    open spec fn eq_spec(&self, other: &Decimal) -> bool {
        dec_value_eq(*self, *other)
    }
}

impl Eq for Decimal {

}

/// All decimals with zero coefficients are value-equal, whatever their signs
/// and exponents; they are representation-equal only when sign and exponent
/// also match.
pub proof fn lemma_zero_decimals_value_equal(a: Decimal, b: Decimal)
    requires
        a.coefficient.spec_is_zero(),
        b.coefficient.spec_is_zero(),
    ensures
        dec_value_eq(a, b),
        dec_repr_eq(a, b) <==> (a.coefficient.sign == b.coefficient.sign && a.exponent
            == b.exponent),
{
}

/// Both decimal equalities are reflexive and symmetric.
pub proof fn lemma_decimal_eq_reflexive_symmetric(a: Decimal, b: Decimal)
    ensures
        dec_value_eq(a, a),
        dec_repr_eq(a, a),
        dec_value_eq(a, b) == dec_value_eq(b, a),
        dec_repr_eq(a, b) == dec_repr_eq(b, a),
{
}

} // verus!
