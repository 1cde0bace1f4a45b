//! The canonical text renderer for scalar values: null forms, booleans,
//! integers, decimals and timestamps, written as ASCII bytes into an owned
//! output buffer.

use vstd::prelude::*;
use crate::coefficient::Sign;
use crate::bignum::{be_val, be_is_zero, be_digits};
use crate::decimal::{Decimal, spec_decimal_text};
use crate::digits::{dec_digit_bytes, padded_digit_bytes, push_u64_decimal, push_u64_padded};
use crate::timestamp::{
    Timestamp, CivilDateTime, spec_shift_minutes, shift_minutes, spec_frac_text,
};
use crate::IonResult;

verus! {

/// The type of an Ion value, as far as the renderer needs to know it; used
/// to pick the text of a typed null.
#[derive(Clone, Copy, Debug, PartialEq, Eq, Structural)]
pub enum IonType {
    Null,
    Boolean,
    Integer,
    Float,
    Decimal,
    Timestamp,
    Symbol,
    String,
    Blob,
    Clob,
    List,
    SExpression,
    Struct,
}

/// An integer value: a machine integer, or an arbitrary-precision value as
/// a sign and a big-endian magnitude.
#[derive(Clone, Debug)]
pub enum Integer {
    I64(i64),
    BigInt(Sign, Vec<u8>),
}

/// The text of a typed null: `null` for the null type, `null.<name>`
/// otherwise.
pub open spec fn spec_null_text(t: IonType) -> Seq<u8> {
    let null = seq!['n' as u8, 'u' as u8, 'l' as u8, 'l' as u8];
    match t {
        IonType::Null => null,
        IonType::Boolean => null + seq!['.' as u8, 'b' as u8, 'o' as u8, 'o' as u8, 'l' as u8],
        IonType::Integer => null + seq!['.' as u8, 'i' as u8, 'n' as u8, 't' as u8],
        IonType::Float => null + seq!['.' as u8, 'f' as u8, 'l' as u8, 'o' as u8, 'a' as u8, 't' as u8],
        IonType::Decimal => null + seq![
            '.' as u8,
            'd' as u8,
            'e' as u8,
            'c' as u8,
            'i' as u8,
            'm' as u8,
            'a' as u8,
            'l' as u8,
        ],
        IonType::Timestamp => null + seq![
            '.' as u8,
            't' as u8,
            'i' as u8,
            'm' as u8,
            'e' as u8,
            's' as u8,
            't' as u8,
            'a' as u8,
            'm' as u8,
            'p' as u8,
        ],
        IonType::Symbol => null + seq![
            '.' as u8,
            's' as u8,
            'y' as u8,
            'm' as u8,
            'b' as u8,
            'o' as u8,
            'l' as u8,
        ],
        IonType::String => null + seq![
            '.' as u8,
            's' as u8,
            't' as u8,
            'r' as u8,
            'i' as u8,
            'n' as u8,
            'g' as u8,
        ],
        IonType::Blob => null + seq!['.' as u8, 'b' as u8, 'l' as u8, 'o' as u8, 'b' as u8],
        IonType::Clob => null + seq!['.' as u8, 'c' as u8, 'l' as u8, 'o' as u8, 'b' as u8],
        IonType::List => null + seq!['.' as u8, 'l' as u8, 'i' as u8, 's' as u8, 't' as u8],
        IonType::SExpression => null + seq!['.' as u8, 's' as u8, 'e' as u8, 'x' as u8, 'p' as u8],
        IonType::Struct => null + seq![
            '.' as u8,
            's' as u8,
            't' as u8,
            'r' as u8,
            'u' as u8,
            'c' as u8,
            't' as u8,
        ],
    }
}

/// The text of a boolean.
pub open spec fn spec_bool_text(v: bool) -> Seq<u8> {
    if v {
        seq!['t' as u8, 'r' as u8, 'u' as u8, 'e' as u8]
    } else {
        seq!['f' as u8, 'a' as u8, 'l' as u8, 's' as u8, 'e' as u8]
    }
}

/// The decimal text of a signed machine integer.
pub open spec fn spec_i64_text(v: int) -> Seq<u8> {
    if v < 0 {
        seq!['-' as u8] + dec_digit_bytes((-v) as nat)
    } else {
        dec_digit_bytes(v as nat)
    }
}

/// The decimal text of an integer value.
pub open spec fn spec_integer_text(v: Integer) -> Seq<u8> {
    match v {
        Integer::I64(i) => spec_i64_text(i as int),
        Integer::BigInt(sign, bytes) => (if sign == Sign::Negative && be_val(bytes@) != 0 {
            seq!['-' as u8]
        } else {
            Seq::<u8>::empty()
        }) + dec_digit_bytes(be_val(bytes@)),
    }
}

/// The text of an offset: the literal `-00:00` for an unknown offset, and
/// sign, two-digit hours and two-digit minutes otherwise.
pub open spec fn spec_offset_text(offset_minutes: Option<i32>) -> Seq<u8> {
    match offset_minutes {
        None => seq!['-' as u8, '0' as u8, '0' as u8, ':' as u8, '0' as u8, '0' as u8],
        Some(m) => {
            let a = if m >= 0 {
                m as int
            } else {
                -(m as int)
            };
            seq![
                (if m >= 0 {
                    '+' as u8
                } else {
                    '-' as u8
                }),
            ] + padded_digit_bytes((a / 60) as nat, 2) + seq![':' as u8] + padded_digit_bytes(
                (a % 60) as nat,
                2,
            )
        },
    }
}

/// The date-time whose fields a timestamp renders: the stored UTC fields
/// moved back into the asserted offset, or the UTC fields themselves when
/// no offset is asserted.
pub open spec fn spec_display_datetime(t: Timestamp) -> CivilDateTime {
    match t.offset {
        Some(m) => spec_shift_minutes(t.date_time, m as int),
        None => t.date_time,
    }
}

/// The time-of-day part of a rendered timestamp, from the `T` delimiter
/// on: hour and minute, then the offset, with second and fraction between
/// them at second precision.
pub open spec fn spec_time_tail_text(t: Timestamp) -> Seq<u8> {
    let d = spec_display_datetime(t);
    seq!['T' as u8] + padded_digit_bytes(d.hour as nat, 2) + seq![':' as u8] + padded_digit_bytes(
        d.minute as nat,
        2,
    ) + (if t.precision.spec_rank() == 3 {
        spec_offset_text(t.offset)
    } else {
        seq![':' as u8] + padded_digit_bytes(d.second as nat, 2) + spec_frac_text(t)
            + spec_offset_text(t.offset)
    })
}

/// The full text of a timestamp: the zero-padded calendar fields up to the
/// declared precision, a trailing `T` below minute precision, and the
/// time of day, fraction and offset from minute precision on.
pub open spec fn spec_timestamp_text(t: Timestamp) -> Seq<u8> {
    let d = spec_display_datetime(t);
    padded_digit_bytes(d.year as nat, 4) + (if t.precision.spec_rank() == 0 {
        seq!['T' as u8]
    } else {
        seq!['-' as u8] + padded_digit_bytes(d.month as nat, 2) + (if t.precision.spec_rank()
            == 1 {
            seq!['T' as u8]
        } else {
            seq!['-' as u8] + padded_digit_bytes(d.day as nat, 2) + (if t.precision.spec_rank()
                == 2 {
                seq!['T' as u8]
            } else {
                spec_time_tail_text(t)
            })
        })
    })
}

/// A timestamp built from local fields at a known offset renders exactly
/// the fields it was built from: normalizing to UTC at build time and
/// shifting back to local time at render time cancel out.
pub proof fn lemma_display_recovers_local_fields(
    b: crate::timestamp::TimestampBuilder,
    offset_minutes: i32,
)
    requires
        !b.fields_are_utc,
        crate::timestamp::spec_build_ok(crate::timestamp::spec_with_offset(b, offset_minutes)),
    ensures
        spec_display_datetime(
            crate::timestamp::spec_built_timestamp(
                crate::timestamp::spec_with_offset(b, offset_minutes),
            ),
        ) == crate::timestamp::spec_built_datetime(b),
{
    let local = crate::timestamp::spec_built_datetime(b);
    assert(crate::timestamp::spec_built_datetime(
        crate::timestamp::spec_with_offset(b, offset_minutes),
    ) == local);
    assert(1 <= local.day <= crate::timestamp::spec_days_in_month(
        local.year as int,
        local.month as int,
    )) by {
        assert(crate::timestamp::spec_days_in_month(local.year as int, local.month as int) >= 28);
    }
    crate::timestamp::lemma_shift_minutes_round_trip(local, -(offset_minutes as int));
}

/// Renders scalar values as canonical Ion text into an owned byte buffer.
/// The buffer only ever holds ASCII.
#[derive(Debug)]
pub struct IonValueFormatter {
    pub output: Vec<u8>,
}

impl IonValueFormatter {
    /// A formatter with an empty output buffer.
    pub fn new() -> (r: IonValueFormatter)
        ensures
            r.output@ == Seq::<u8>::empty(),
    {
        IonValueFormatter { output: Vec::new() }
    }

    /// The output rendered so far, as a string.
    ///
    /// Relies on `String::from_utf8_lossy`: ASCII bytes decode to one
    /// character per byte, and every byte this formatter writes is ASCII.
    #[verifier::external_body]
    pub fn output_str(&self) -> (s: String)
        ensures
            (forall|i: int| 0 <= i < self.output@.len() ==> self.output@[i] < 128) ==> (s@.len()
                == self.output@.len() && forall|i: int|
                0 <= i < self.output@.len() ==> s@[i] as u8 == self.output@[i]),
    {
        String::from_utf8_lossy(self.output.as_slice()).into_owned()
    }

    /// Appends the text of a typed null.
    pub fn format_null(&mut self, ion_type: IonType) -> (r: IonResult<()>)
        ensures
            final(self).output@ == old(self).output@ + spec_null_text(ion_type),
            r is Ok,
    {
        let ghost orig: Seq<u8> = self.output@;
        self.output.push('n' as u8);
        self.output.push('u' as u8);
        self.output.push('l' as u8);
        self.output.push('l' as u8);
        match ion_type {
            IonType::Null => {},
            IonType::Boolean => {
                self.push_dot_and(&['b' as u8, 'o' as u8, 'o' as u8, 'l' as u8]);
            },
            IonType::Integer => {
                self.push_dot_and(&['i' as u8, 'n' as u8, 't' as u8]);
            },
            IonType::Float => {
                self.push_dot_and(&['f' as u8, 'l' as u8, 'o' as u8, 'a' as u8, 't' as u8]);
            },
            IonType::Decimal => {
                self.push_dot_and(
                    &['d' as u8, 'e' as u8, 'c' as u8, 'i' as u8, 'm' as u8, 'a' as u8, 'l' as u8],
                );
            },
            IonType::Timestamp => {
                self.push_dot_and(
                    &[
                        't' as u8,
                        'i' as u8,
                        'm' as u8,
                        'e' as u8,
                        's' as u8,
                        't' as u8,
                        'a' as u8,
                        'm' as u8,
                        'p' as u8,
                    ],
                );
            },
            IonType::Symbol => {
                self.push_dot_and(
                    &['s' as u8, 'y' as u8, 'm' as u8, 'b' as u8, 'o' as u8, 'l' as u8],
                );
            },
            IonType::String => {
                self.push_dot_and(
                    &['s' as u8, 't' as u8, 'r' as u8, 'i' as u8, 'n' as u8, 'g' as u8],
                );
            },
            IonType::Blob => {
                self.push_dot_and(&['b' as u8, 'l' as u8, 'o' as u8, 'b' as u8]);
            },
            IonType::Clob => {
                self.push_dot_and(&['c' as u8, 'l' as u8, 'o' as u8, 'b' as u8]);
            },
            IonType::List => {
                self.push_dot_and(&['l' as u8, 'i' as u8, 's' as u8, 't' as u8]);
            },
            IonType::SExpression => {
                self.push_dot_and(&['s' as u8, 'e' as u8, 'x' as u8, 'p' as u8]);
            },
            IonType::Struct => {
                self.push_dot_and(
                    &['s' as u8, 't' as u8, 'r' as u8, 'u' as u8, 'c' as u8, 't' as u8],
                );
            },
        }
        proof {
            assert(self.output@ =~= orig + spec_null_text(ion_type));
        }
        Ok(())
    }

    /// Appends a dot and the given ASCII letters.
    fn push_dot_and(&mut self, suffix: &[u8])
        ensures
            final(self).output@ == old(self).output@ + seq!['.' as u8] + suffix@,
    {
        let ghost orig: Seq<u8> = self.output@;
        self.output.push('.' as u8);
        let mut i: usize = 0;
        proof {
            assert(self.output@ =~= orig + seq!['.' as u8] + suffix@.take(0));
        }
        while i < suffix.len()
            invariant
                i <= suffix@.len(),
                self.output@ == orig + seq!['.' as u8] + suffix@.take(i as int),
            decreases suffix@.len() - i,
        {
            self.output.push(suffix[i]);
            i = i + 1;
            proof {
                assert(suffix@.take(i as int) =~= suffix@.take(i - 1).push(suffix@[i - 1]));
                assert(self.output@ =~= orig + seq!['.' as u8] + suffix@.take(i as int));
            }
        }
        proof {
            assert(suffix@.take(suffix@.len() as int) =~= suffix@);
        }
    }

    /// Appends `true` or `false`.
    pub fn format_bool(&mut self, value: bool) -> (r: IonResult<()>)
        ensures
            final(self).output@ == old(self).output@ + spec_bool_text(value),
            r is Ok,
    {
        let ghost orig: Seq<u8> = self.output@;
        if value {
            self.output.push('t' as u8);
            self.output.push('r' as u8);
            self.output.push('u' as u8);
            self.output.push('e' as u8);
        } else {
            self.output.push('f' as u8);
            self.output.push('a' as u8);
            self.output.push('l' as u8);
            self.output.push('s' as u8);
            self.output.push('e' as u8);
        }
        proof {
            assert(self.output@ =~= orig + spec_bool_text(value));
        }
        Ok(())
    }

    /// Appends the decimal text of an integer.
    pub fn format_integer(&mut self, value: &Integer) -> (r: IonResult<()>)
        ensures
            final(self).output@ == old(self).output@ + spec_integer_text(*value),
            r is Ok,
    {
        let ghost orig: Seq<u8> = self.output@;
        match value {
            Integer::I64(i) => {
                if *i < 0 {
                    self.output.push('-' as u8);
                    let magnitude: u64 = ((-(*i + 1)) as u64) + 1;
                    push_u64_decimal(&mut self.output, magnitude);
                } else {
                    push_u64_decimal(&mut self.output, *i as u64);
                }
            },
            Integer::BigInt(sign, bytes) => {
                if sign.is_negative() && !be_is_zero(bytes) {
                    self.output.push('-' as u8);
                }
                let digits = be_digits(bytes);
                let mut i: usize = 0;
                let ghost mid: Seq<u8> = self.output@;
                proof {
                    assert(self.output@ =~= mid + digits@.take(0));
                }
                while i < digits.len()
                    invariant
                        i <= digits@.len(),
                        self.output@ == mid + digits@.take(i as int),
                    decreases digits@.len() - i,
                {
                    self.output.push(digits[i]);
                    i = i + 1;
                    proof {
                        assert(digits@.take(i as int) =~= digits@.take(i - 1).push(
                            digits@[i - 1],
                        ));
                        assert(self.output@ =~= mid + digits@.take(i as int));
                    }
                }
                proof {
                    assert(digits@.take(digits@.len() as int) =~= digits@);
                }
            },
        }
        proof {
            assert(self.output@ =~= orig + spec_integer_text(*value));
        }
        Ok(())
    }

    /// Appends the canonical text of a decimal.
    pub fn format_decimal(&mut self, value: &Decimal) -> (r: IonResult<()>)
        ensures
            final(self).output@ == old(self).output@ + spec_decimal_text(*value),
            r is Ok,
    {
        value.push_text(&mut self.output);
        Ok(())
    }

    /// Appends the text of a timestamp: local calendar fields up to the
    /// declared precision, then the fraction and the offset as the
    /// precision demands.
    #[verifier::rlimit(100)]
    pub fn format_timestamp(&mut self, value: &Timestamp) -> (r: IonResult<()>)
        requires
            value.wf(),
        ensures
            final(self).output@ == old(self).output@ + spec_timestamp_text(*value),
            r is Ok,
    {
        let ghost orig: Seq<u8> = self.output@;
        let display: CivilDateTime = match &value.offset {
            Some(m) => shift_minutes(value.date_time, *m),
            None => value.date_time,
        };
        proof {
            assert(display == spec_display_datetime(*value));
        }
        let rank: u8 = value.precision.rank();
        let ghost text: Seq<u8> = spec_timestamp_text(*value);
        let ghost p_year: Seq<u8> = padded_digit_bytes(display.year as nat, 4);
        let ghost p_month: Seq<u8> = padded_digit_bytes(display.month as nat, 2);
        let ghost p_day: Seq<u8> = padded_digit_bytes(display.day as nat, 2);
        push_u64_padded(&mut self.output, display.year as u64, 4);
        if rank == 0 {
            self.output.push('T' as u8);
            proof {
                assert(text == p_year + seq!['T' as u8]);
                assert(self.output@ =~= orig + text);
            }
            return Ok(());
        }
        self.output.push('-' as u8);
        push_u64_padded(&mut self.output, display.month as u64, 2);
        if rank == 1 {
            self.output.push('T' as u8);
            proof {
                assert(text == p_year + (seq!['-' as u8] + p_month + seq!['T' as u8]));
                assert(self.output@ =~= orig + text);
            }
            return Ok(());
        }
        self.output.push('-' as u8);
        push_u64_padded(&mut self.output, display.day as u64, 2);
        if rank == 2 {
            self.output.push('T' as u8);
            proof {
                assert(text == p_year + (seq!['-' as u8] + p_month + (seq!['-' as u8] + p_day
                    + seq!['T' as u8])));
                assert(self.output@ =~= orig + text);
            }
            return Ok(());
        }
        self.format_time_tail(value, display);
        proof {
            assert(text == p_year + (seq!['-' as u8] + p_month + (seq!['-' as u8] + p_day
                + spec_time_tail_text(*value))));
            assert(self.output@ =~= orig + text);
        }
        Ok(())
    }

    /// Appends the time-of-day part of a timestamp, from the `T` delimiter
    /// on.
    fn format_time_tail(&mut self, value: &Timestamp, display: CivilDateTime)
        requires
            value.wf(),
            display == spec_display_datetime(*value),
            value.precision.spec_rank() >= 3,
        ensures
            final(self).output@ == old(self).output@ + spec_time_tail_text(*value),
    {
        let ghost orig: Seq<u8> = self.output@;
        let ghost p_hour: Seq<u8> = padded_digit_bytes(display.hour as nat, 2);
        let ghost p_minute: Seq<u8> = padded_digit_bytes(display.minute as nat, 2);
        let ghost p_second: Seq<u8> = padded_digit_bytes(display.second as nat, 2);
        let rank: u8 = value.precision.rank();
        self.output.push('T' as u8);
        push_u64_padded(&mut self.output, display.hour as u64, 2);
        self.output.push(':' as u8);
        push_u64_padded(&mut self.output, display.minute as u64, 2);
        if rank == 3 {
            let _ = self.format_offset(value.offset);
            proof {
                assert(spec_time_tail_text(*value) == seq!['T' as u8] + p_hour + seq![':' as u8]
                    + p_minute + spec_offset_text(value.offset));
                assert(self.output@ =~= orig + spec_time_tail_text(*value));
            }
            return ;
        }
        self.output.push(':' as u8);
        push_u64_padded(&mut self.output, display.second as u64, 2);
        let _ = value.format_fractional_seconds(&mut self.output);
        let _ = self.format_offset(value.offset);
        proof {
            assert(spec_time_tail_text(*value) == seq!['T' as u8] + p_hour + seq![':' as u8]
                + p_minute + (seq![':' as u8] + p_second + spec_frac_text(*value)
                + spec_offset_text(value.offset)));
            assert(self.output@ =~= orig + spec_time_tail_text(*value));
        }
    }

    /// Appends the text of an offset: `-00:00` when unknown, signed
    /// two-digit hours and minutes otherwise.
    pub fn format_offset(&mut self, offset_minutes: Option<i32>) -> (r: IonResult<()>)
        requires
            offset_minutes matches Some(m) ==> m > i32::MIN,
        ensures
            final(self).output@ == old(self).output@ + spec_offset_text(offset_minutes),
            r is Ok,
    {
        let ghost orig: Seq<u8> = self.output@;
        match offset_minutes {
            None => {
                self.output.push('-' as u8);
                self.output.push('0' as u8);
                self.output.push('0' as u8);
                self.output.push(':' as u8);
                self.output.push('0' as u8);
                self.output.push('0' as u8);
                proof {
                    assert(self.output@ =~= orig + spec_offset_text(offset_minutes));
                }
                Ok(())
            },
            Some(m) => {
                let magnitude: i32 = if m >= 0 {
                    self.output.push('+' as u8);
                    m
                } else {
                    self.output.push('-' as u8);
                    -m
                };
                push_u64_padded(&mut self.output, (magnitude / 60) as u64, 2);
                self.output.push(':' as u8);
                push_u64_padded(&mut self.output, (magnitude % 60) as u64, 2);
                proof {
                    assert(self.output@ =~= orig + spec_offset_text(offset_minutes));
                }
                Ok(())
            },
        }
    }
}

} // verus!
