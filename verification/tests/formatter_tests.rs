use ion_scalars::decimal::Decimal;
use ion_scalars::text::{Integer, IonType, IonValueFormatter};
use ion_scalars::timestamp::Timestamp;
use ion_scalars::IonResult;
use num_bigint::BigInt;

fn formatter<F>(mut f: F, expected: &str)
where
    F: FnMut(&mut IonValueFormatter) -> IonResult<()>,
{
    let mut ivf = IonValueFormatter::new();
    let _ = f(&mut ivf);
    assert_eq!(ivf.output_str(), expected);
}

/// Builds the library's integer representation of a `num_bigint` value.
fn big_integer(value: BigInt) -> Integer {
    let (sign, bytes) = value.to_bytes_be();
    let library_sign = match sign {
        num_bigint::Sign::Minus => ion_scalars::coefficient::Sign::Negative,
        _ => ion_scalars::coefficient::Sign::Positive,
    };
    Integer::BigInt(library_sign, bytes)
}

#[test]
fn test_format_null() -> IonResult<()> {
    formatter(|ivf| ivf.format_null(IonType::Symbol), "null.symbol");
    formatter(|ivf| ivf.format_null(IonType::Null), "null");
    Ok(())
}

#[test]
fn test_format_bool() -> IonResult<()> {
    formatter(|ivf| ivf.format_bool(true), "true");
    formatter(|ivf| ivf.format_bool(false), "false");
    Ok(())
}

#[test]
fn test_format_i64() -> IonResult<()> {
    formatter(|ivf| ivf.format_integer(&Integer::I64(4)), "4");
    formatter(|ivf| ivf.format_integer(&Integer::I64(-4)), "-4");
    Ok(())
}

#[test]
fn test_format_big_int() -> IonResult<()> {
    formatter(|ivf| ivf.format_integer(&big_integer(BigInt::from(4))), "4");
    formatter(
        |ivf| ivf.format_integer(&big_integer(BigInt::from(-4))),
        "-4",
    );
    Ok(())
}

#[test]
fn format_big_int_many_digits() -> IonResult<()> {
    let big = BigInt::parse_bytes(b"123456789012345678901234567890", 10).unwrap();
    formatter(
        |ivf| ivf.format_integer(&big_integer(big.clone())),
        "123456789012345678901234567890",
    );
    Ok(())
}

#[test]
fn test_format_timestamp() -> IonResult<()> {
    let timestamp = Timestamp::with_year(2000)
        .with_month(8)
        .build()
        .expect("building timestamp failed");
    formatter(|ivf| ivf.format_timestamp(&timestamp), "2000-08T");
    Ok(())
}

#[test]
fn format_timestamp_all_precisions() -> IonResult<()> {
    let year = Timestamp::with_year(2000).build()?;
    formatter(|ivf| ivf.format_timestamp(&year), "2000T");

    let day = Timestamp::with_ymd(2000, 8, 1).build()?;
    formatter(|ivf| ivf.format_timestamp(&day), "2000-08-01T");

    let minute = Timestamp::with_ymd(2000, 8, 1)
        .with_hour_and_minute(7, 5)
        .build_at_unknown_offset()?;
    formatter(|ivf| ivf.format_timestamp(&minute), "2000-08-01T07:05-00:00");

    let second = Timestamp::with_ymd_hms(2000, 8, 1, 7, 5, 30).build_at_offset(0)?;
    formatter(|ivf| ivf.format_timestamp(&second), "2000-08-01T07:05:30+00:00");
    Ok(())
}

#[test]
fn format_timestamp_renders_local_fields_at_offset() -> IonResult<()> {
    // Stored in UTC, rendered back in the asserted offset.
    let t = Timestamp::with_ymd_hms(2021, 2, 5, 16, 43, 51).build_at_offset(-5 * 60)?;
    formatter(|ivf| ivf.format_timestamp(&t), "2021-02-05T16:43:51-05:00");

    let u = Timestamp::with_ymd(2021, 3, 1)
        .with_hour_and_minute(0, 30)
        .build_at_offset(8 * 60 + 30)?;
    formatter(|ivf| ivf.format_timestamp(&u), "2021-03-01T00:30+08:30");
    Ok(())
}

#[test]
fn format_timestamp_fractional_seconds() -> IonResult<()> {
    let millis = Timestamp::with_ymd_hms_millis(2021, 2, 5, 16, 43, 51, 192)
        .build_at_unknown_offset()?;
    formatter(|ivf| ivf.format_timestamp(&millis), "2021-02-05T16:43:51.192-00:00");

    // Leading zeros inside the fraction are kept.
    let micros = Timestamp::with_ymd_hms(2021, 2, 5, 16, 43, 51)
        .with_microseconds(9500)
        .build_at_unknown_offset()?;
    formatter(|ivf| ivf.format_timestamp(&micros), "2021-02-05T16:43:51.009500-00:00");

    // An arbitrary-precision fraction renders its implied leading zeros.
    let arbitrary = Timestamp::with_ymd_hms(2021, 2, 5, 16, 43, 51)
        .with_fractional_seconds(Decimal::new(6, -4))
        .build_at_unknown_offset()?;
    formatter(|ivf| ivf.format_timestamp(&arbitrary), "2021-02-05T16:43:51.0006-00:00");

    // An empty fraction is suppressed entirely.
    let empty = Timestamp::with_ymd_hms(2021, 2, 5, 16, 43, 51)
        .with_nanoseconds_and_precision(0, 0)
        .build_at_unknown_offset()?;
    formatter(|ivf| ivf.format_timestamp(&empty), "2021-02-05T16:43:51-00:00");
    Ok(())
}

#[test]
fn format_decimal_text() -> IonResult<()> {
    formatter(|ivf| ivf.format_decimal(&Decimal::new(42, 0)), "42d0");
    formatter(|ivf| ivf.format_decimal(&Decimal::new(0, 0)), "0d0");
    formatter(|ivf| ivf.format_decimal(&Decimal::new(-42, -3)), "-42d-3");
    formatter(|ivf| ivf.format_decimal(&Decimal::negative_zero()), "-0d0");
    Ok(())
}

#[test]
fn format_null_all_types() -> IonResult<()> {
    formatter(|ivf| ivf.format_null(IonType::Boolean), "null.bool");
    formatter(|ivf| ivf.format_null(IonType::Integer), "null.int");
    formatter(|ivf| ivf.format_null(IonType::Float), "null.float");
    formatter(|ivf| ivf.format_null(IonType::Decimal), "null.decimal");
    formatter(|ivf| ivf.format_null(IonType::Timestamp), "null.timestamp");
    formatter(|ivf| ivf.format_null(IonType::String), "null.string");
    formatter(|ivf| ivf.format_null(IonType::Blob), "null.blob");
    formatter(|ivf| ivf.format_null(IonType::Clob), "null.clob");
    formatter(|ivf| ivf.format_null(IonType::List), "null.list");
    formatter(|ivf| ivf.format_null(IonType::SExpression), "null.sexp");
    formatter(|ivf| ivf.format_null(IonType::Struct), "null.struct");
    Ok(())
}

#[test]
fn format_offset_forms() -> IonResult<()> {
    formatter(|ivf| ivf.format_offset(None), "-00:00");
    formatter(|ivf| ivf.format_offset(Some(0)), "+00:00");
    formatter(|ivf| ivf.format_offset(Some(8 * 60 + 30)), "+08:30");
    formatter(|ivf| ivf.format_offset(Some(-(5 * 60))), "-05:00");
    Ok(())
}

#[test]
fn format_i64_extremes() -> IonResult<()> {
    formatter(
        |ivf| ivf.format_integer(&Integer::I64(i64::MIN)),
        "-9223372036854775808",
    );
    formatter(
        |ivf| ivf.format_integer(&Integer::I64(i64::MAX)),
        "9223372036854775807",
    );
    formatter(|ivf| ivf.format_integer(&Integer::I64(0)), "0");
    Ok(())
}

#[test]
fn format_timestamp_offset_across_year_boundary() -> IonResult<()> {
    // Local midnight of year 1 at +10:00 is stored as year 0 UTC and
    // rendered back in local time.
    let t = Timestamp::with_ymd(1, 1, 1)
        .with_hour_and_minute(0, 0)
        .build_at_offset(10 * 60)?;
    formatter(|ivf| ivf.format_timestamp(&t), "0001-01-01T00:00+10:00");

    // UTC fields at the end of year 9999 with a positive offset render a
    // five-digit local year.
    let u = Timestamp::with_ymd(9999, 12, 31)
        .with_hour_and_minute(23, 59)
        .build_utc_fields_at_offset(60)?;
    formatter(|ivf| ivf.format_timestamp(&u), "10000-01-01T00:59+01:00");
    Ok(())
}
