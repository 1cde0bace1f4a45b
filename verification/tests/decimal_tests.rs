use ion_scalars::binary::{encode_decimal, encode_decimal_value};
use ion_scalars::coefficient::{Coefficient, Magnitude, Sign};
use ion_scalars::decimal::Decimal;
use ion_scalars::IonResult;

/// This test ensures that value equality and representation equality treat
/// the special decimal value 0d0 correctly.
#[test]
fn decimal_0d0_is_a_special_zero_value() {
    let decimal_positive_zero = Decimal::new(0, 0);
    assert_eq!(decimal_positive_zero, Decimal::new(0, 0));
    assert!(decimal_positive_zero.ion_eq(&Decimal::new(0, 0)));

    assert_eq!(decimal_positive_zero, Decimal::new(0, 10));
    assert!(!decimal_positive_zero.ion_eq(&Decimal::new(0, 10)));

    assert_eq!(decimal_positive_zero, Decimal::new(0, 100));
    assert!(!decimal_positive_zero.ion_eq(&Decimal::new(0, 100)));
}

#[test]
fn bytes_written() -> IonResult<()> {
    let cases: Vec<(Decimal, usize)> = vec![
        (Decimal::new(0, 0), 1),
        (Decimal::new(0, 10), 2),
        (Decimal::new(42, 0), 3),
    ];
    for (input, expected) in cases {
        let mut buf: Vec<u8> = vec![];
        let written = encode_decimal_value(&mut buf, &input)?;
        assert_eq!(buf.len(), expected);
        assert_eq!(written, expected);
    }
    Ok(())
}

#[test]
fn encode_canonical_zero_content_is_empty() -> IonResult<()> {
    let mut buf: Vec<u8> = vec![];
    let written = encode_decimal(&mut buf, &Decimal::new(0, 0))?;
    assert_eq!(written, 0);
    assert!(buf.is_empty());
    Ok(())
}

#[test]
fn encode_value_exact_bytes() -> IonResult<()> {
    let mut buf: Vec<u8> = vec![];
    encode_decimal_value(&mut buf, &Decimal::new(42, 0))?;
    assert_eq!(buf, vec![0x52, 0x80, 0x2A]);

    let mut buf: Vec<u8> = vec![];
    encode_decimal_value(&mut buf, &Decimal::new(-42, -3))?;
    assert_eq!(buf, vec![0x52, 0xC3, 0xAA]);

    let mut buf: Vec<u8> = vec![];
    encode_decimal_value(&mut buf, &Decimal::new(0, -10))?;
    assert_eq!(buf, vec![0x51, 0xCA]);
    Ok(())
}

#[test]
fn encode_negative_zero_uses_reserved_byte() -> IonResult<()> {
    let mut buf: Vec<u8> = vec![];
    let written = encode_decimal(&mut buf, &Decimal::negative_zero())?;
    assert_eq!(written, 2);
    assert_eq!(buf, vec![0x80, 0x80]);
    Ok(())
}

#[test]
fn encode_sign_folding_needs_extra_byte() -> IonResult<()> {
    // A magnitude whose leading byte already has its high bit set forces a
    // separate sign byte.
    let mut buf: Vec<u8> = vec![];
    encode_decimal(&mut buf, &Decimal::new(200, 0))?;
    assert_eq!(buf, vec![0x80, 0x00, 0xC8]);

    let mut buf: Vec<u8> = vec![];
    encode_decimal(&mut buf, &Decimal::new(-200, 0))?;
    assert_eq!(buf, vec![0x80, 0x80, 0xC8]);
    Ok(())
}

#[test]
fn encode_large_exponent_uses_two_varint_bytes() -> IonResult<()> {
    let mut buf: Vec<u8> = vec![];
    encode_decimal(&mut buf, &Decimal::new(0, 64))?;
    assert_eq!(buf, vec![0x00, 0xC0]);
    Ok(())
}

#[test]
fn encode_big_coefficient() -> IonResult<()> {
    // Nine 0xFF bytes: too large for the i64 fast path; the sign slot is
    // taken, so a zero byte is prepended.
    let coefficient = Coefficient::new(Sign::Positive, Magnitude::from_be_bytes(vec![0xFF; 9]));
    let decimal = Decimal::from_coefficient(coefficient, 0);
    let mut buf: Vec<u8> = vec![];
    let written = encode_decimal(&mut buf, &decimal)?;
    assert_eq!(written, 11);
    assert_eq!(buf[0], 0x80);
    assert_eq!(buf[1], 0x00);
    assert_eq!(&buf[2..], &[0xFF; 9]);
    Ok(())
}

#[test]
fn encode_value_length_follows_form() -> IonResult<()> {
    // Thirteen coefficient bytes plus one exponent byte: fourteen content
    // bytes, which no longer fit the descriptor's low nibble.
    let coefficient = Coefficient::new(Sign::Positive, Magnitude::from_be_bytes(vec![0x01; 13]));
    let decimal = Decimal::from_coefficient(coefficient, 0);
    let mut buf: Vec<u8> = vec![];
    let written = encode_decimal_value(&mut buf, &decimal)?;
    assert_eq!(written, 16);
    assert_eq!(buf[0], 0x5E);
    assert_eq!(buf[1], 0x8E);
    assert_eq!(buf[2], 0x80);
    assert_eq!(&buf[3..], &[0x01; 13]);
    Ok(())
}

#[test]
fn encode_value_rejects_oversized_content() {
    let coefficient = Coefficient::new(Sign::Positive, Magnitude::from_be_bytes(vec![0x01; 16]));
    let decimal = Decimal::from_coefficient(coefficient, 0);
    let mut buf: Vec<u8> = vec![];
    let result = encode_decimal_value(&mut buf, &decimal);
    assert!(result.is_err());
    assert!(buf.is_empty());
}

#[test]
fn magnitude_normalization_ignores_leading_zeros() {
    let padded = Coefficient::new(Sign::Positive, Magnitude::from_be_bytes(vec![0, 0, 5]));
    let small = Decimal::from_coefficient(padded, 0);
    assert!(small.ion_eq(&Decimal::new(5, 0)));
    assert_eq!(small, Decimal::new(5, 0));
}

#[test]
fn negative_zero_is_value_equal_but_not_ion_eq_to_zero() {
    assert_eq!(Decimal::negative_zero(), Decimal::new(0, 0));
    assert!(!Decimal::negative_zero().ion_eq(&Decimal::new(0, 0)));
    assert!(Decimal::negative_zero().ion_eq(&Decimal::negative_zero()));
}

#[test]
fn nonzero_decimals_compare_exactly() {
    assert_eq!(Decimal::new(42, 0), Decimal::new(42, 0));
    assert_ne!(Decimal::new(42, 0), Decimal::new(42, 1));
    assert_ne!(Decimal::new(42, 0), Decimal::new(-42, 0));
    assert_ne!(Decimal::new(42, 0), Decimal::new(43, 0));
}

#[test]
fn encode_u64_boundary_coefficients() -> IonResult<()> {
    // i64::MAX still takes the compact sign-folded form without a lead byte.
    let mut buf: Vec<u8> = vec![];
    encode_decimal(&mut buf, &Decimal::new(i64::MAX, 0))?;
    assert_eq!(buf, vec![0x80, 0x7F, 0xFF, 0xFF, 0xFF, 0xFF, 0xFF, 0xFF, 0xFF]);

    // i64::MIN's magnitude has its high bit set, so the sign needs its own
    // leading byte.
    let mut buf: Vec<u8> = vec![];
    encode_decimal(&mut buf, &Decimal::new(i64::MIN, 0))?;
    assert_eq!(
        buf,
        vec![0x80, 0x80, 0x80, 0x00, 0x00, 0x00, 0x00, 0x00, 0x00, 0x00]
    );
    Ok(())
}
